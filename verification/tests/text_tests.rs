use lib::criticality::short;
use lib::text::{i64_to_decimal, str_chars, str_eq, string_from_chars, strip_prefix, u64_to_decimal};

#[test]
fn short_labels() {
    assert_eq!(short("regression_competence"), "régression");
    assert_eq!(short("instabilite_divergence"), "instabilité");
    assert_eq!(short("derive_valeurs"), "dérive-V");
    assert_eq!(short("effondrement_substrat"), "substrat");
    assert_eq!(short("goodhart_surajustement"), "goodhart");
    assert_eq!(short("empoisonnement_memoire"), "mémoire");
    assert_eq!(short("wireheading"), "wirehead");
    assert_eq!(short("autre_mode"), "autre_mode");
}

#[test]
fn text_helpers() {
    assert!(str_eq("abc", "abc"));
    assert!(!str_eq("abc", "abd"));
    assert_eq!(strip_prefix("rsi_run", "rsi_"), Some("run".to_string()));
    assert_eq!(strip_prefix("run", "rsi_"), None);
    assert_eq!(strip_prefix("rs", "rsi_"), None);
    assert_eq!(strip_prefix("rsi_", "rsi_"), Some(String::new()));
    assert_eq!(string_from_chars(&str_chars("héllo")), "héllo");
    assert_eq!(u64_to_decimal(0), "0");
    assert_eq!(u64_to_decimal(u64::MAX), u64::MAX.to_string());
    assert_eq!(i64_to_decimal(i64::MIN), i64::MIN.to_string());
}
