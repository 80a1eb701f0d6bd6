use lib::hw_probe::{first_field, meminfo_fields};

#[test]
fn load_average_first_field() {
    assert_eq!(first_field("0.52 0.58 0.59 1/389 12345\n"), Some("0.52".to_string()));
    assert_eq!(first_field("  \t 3.5"), Some("3.5".to_string()));
    assert_eq!(first_field(" \n "), None);
    assert_eq!(first_field(""), None);
}

#[test]
fn meminfo_total_and_available() {
    let text = "MemTotal:       16316412 kB\nMemFree:         1234 kB\nMemAvailable:    8158206 kB\n";
    assert_eq!(
        meminfo_fields(text),
        (Some("16316412".to_string()), Some("8158206".to_string()))
    );
}

#[test]
fn meminfo_edge_cases() {
    assert_eq!(meminfo_fields(""), (None, None));
    assert_eq!(meminfo_fields("MemTotal: 5\r\nMemAvailable: 2\r\n"), (Some("5".to_string()), Some("2".to_string())));
    assert_eq!(meminfo_fields("MemTotal: 5\nMemTotal:\nMemAvailable: 1"), (None, Some("1".to_string())));
    assert_eq!(meminfo_fields(" MemTotal: 5\nmemtotal: 4"), (None, None));
    assert_eq!(meminfo_fields("MemTotal:7kB"), (Some("7kB".to_string()), None));
}
