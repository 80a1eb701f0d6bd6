use lib::json::Json;
use lib::json_parse::{JsonError, Parser};
use lib::json_text::write_escaped;

fn num(v: &Json) -> Option<f64> {
    v.as_num().map(|t| t.parse::<f64>().unwrap())
}

#[test]
fn roundtrip_object() {
    let src = r#"{"a":1,"b":[true,null,"x"],"c":{"d":-2.5}}"#;
    let v = Json::parse(src).unwrap();
    assert_eq!(num(v.get("a").unwrap()), Some(1.0));
    assert_eq!(v.get("b").unwrap().as_array().unwrap().len(), 3);
    assert_eq!(num(v.get("c").unwrap().get("d").unwrap()), Some(-2.5));
    // parsing the serialisation gives the value back
    let again = Json::parse(&v.to_string()).unwrap();
    assert_eq!(v, again);
}

#[test]
fn parse_escapes() {
    let v = Json::parse(r#""line\n\tA""#).unwrap();
    assert_eq!(v.as_str(), Some("line\n\tA"));
}

#[test]
fn rejects_trailing_garbage() {
    assert!(Json::parse("{} extra").is_err());
}

#[test]
fn serialisation_is_compact_and_sorted() {
    let v = Json::parse(" { \"b\" : 1 , \"a\" : [ 2 , \"é\" ] } ").unwrap();
    assert_eq!(v.to_string(), "{\"a\":[2,\"é\"],\"b\":1}");
}

#[test]
fn unicode_escape_decodes() {
    let v = Json::parse(r#""\u0041\u00e9""#).unwrap();
    assert_eq!(v.as_str(), Some("Aé"));
    let lone = Json::parse(r#""\ud800""#).unwrap();
    assert_eq!(lone.as_str(), Some("\u{fffd}"));
}

#[test]
fn duplicate_keys_keep_the_last() {
    let v = Json::parse(r#"{"k":1,"k":2}"#).unwrap();
    assert_eq!(v.get("k").unwrap().as_num(), Some("2"));
    assert_eq!(v.to_string(), "{\"k\":2}");
}

#[test]
fn error_messages_name_the_position() {
    let cases: Vec<(&str, &str)> = vec![
        ("{} extra", "caractères superflus à la position 3"),
        ("@", "token inattendu '@' à la position 0"),
        ("", "fin d'entrée inattendue"),
        ("   ", "fin d'entrée inattendue"),
        ("{\"a\" 1}", "':' attendu à la position 6"),
        ("{\"a\":1 2}", "',' ou '}' attendu à la position 8"),
        ("[1 2]", "',' ou ']' attendu à la position 4"),
        ("{1:2}", "'\"' attendu à la position 2"),
        ("\"ab\\", "échappement tronqué"),
        ("\"\\u12", "\\u tronqué"),
        ("\"\\u12x4\"", "hex invalide dans \\u"),
        ("\"\\q\"", "échappement inconnu \\q"),
        ("\"abc", "chaîne non terminée"),
        ("tru", "littéral booléen invalide à la position 0"),
        ("nul", "littéral null invalide à la position 0"),
        ("-", "nombre invalide '-'"),
        ("1.2.3", "nombre invalide '1.2.3'"),
    ];
    for (input, message) in cases {
        assert_eq!(Json::parse(input), Err(message.to_string()), "input {input:?}");
    }
}

#[test]
fn error_kinds_carry_positions() {
    let cs: Vec<char> = "[true, nope]".chars().collect();
    match Json::parse_chars(&cs) {
        Err(JsonError::InvalidNull(p)) => assert_eq!(p, 7),
        other => panic!("unexpected {other:?}"),
    }
}

#[test]
fn numbers_follow_the_grammar() {
    for ok in ["0", "-1", "3.25", "1e10", "-2.5E-3", "+4", "007", "1.", ".5", "inf", "NaN"] {
        let accepted = Json::number(ok).is_some();
        let starts = ok.starts_with('-') || ok.starts_with(|c: char| c.is_ascii_digit());
        let expected = ok.parse::<f64>().is_ok() && starts;
        assert_eq!(accepted, expected && ok.chars().all(|c| c.is_ascii_digit() || ".eE+-".contains(c)), "{ok}");
    }
    assert_eq!(Json::from_i64(-42).to_string(), "-42");
    assert_eq!(Json::from_usize(7).to_string(), "7");
}

#[test]
fn set_then_get() {
    let mut o = Json::obj();
    o.set("b", Json::Bool(true));
    o.set("a", Json::Null);
    o.set("b", Json::from_i64(3));
    assert_eq!(o.get("b").unwrap().as_num(), Some("3"));
    assert_eq!(o.get("a"), Some(&Json::Null));
    assert_eq!(o.get("z"), None);
    let mut n = Json::Null;
    n.set("x", Json::Bool(false));
    assert_eq!(n, Json::Null);
    assert_eq!(o.to_string(), "{\"a\":null,\"b\":3}");
}

#[test]
fn escaping_of_control_characters() {
    let mut out = String::new();
    write_escaped("a\"b\\c\n\r\t\u{1}é", &mut out);
    assert_eq!(out, "\"a\\\"b\\\\c\\n\\r\\t\\u0001é\"");
}

#[test]
fn parser_cursor_moves() {
    let mut p = Parser::new("  \"hi\" true");
    assert_eq!(p.peek(), Some(' '));
    p.skip_ws();
    assert_eq!(p.pos, 2);
    assert_eq!(p.parse_string().unwrap(), "hi");
    assert_eq!(p.pos, 6);
    p.skip_ws();
    assert!(!p.match_literal("false"));
    assert!(!p.match_literal("tré"));
    assert!(p.match_literal("true"));
    assert_eq!(p.next(), None);
}

#[test]
fn failed_string_reads_leave_the_cursor_where_they_stopped() {
    let cases: Vec<(&str, usize)> = vec![
        ("x", 1),
        ("", 0),
        ("\"ab", 3),
        ("\"a\\", 3),
        ("\"\\q zz", 3),
        ("\"\\u12x4\"", 6),
        ("\"\\u12", 5),
    ];
    for (input, stop) in cases {
        let mut p = Parser::new(input);
        assert!(p.parse_string().is_err(), "{input:?}");
        assert_eq!(p.pos, stop, "{input:?}");
    }
}

#[test]
fn copies_are_equal() {
    let v = Json::parse(r#"{"a":[1,{"b":null}],"c":"d"}"#).unwrap();
    assert_eq!(v.copy_value(), v);
}
