use grapehul::json::{text_to_int, JsonScalar, parse_structured, render_parameter_map};
use grapehul::params::ParameterMap;

fn parse_str(s: &str) -> Option<Vec<(String, JsonScalar)>> {
    parse_structured(&s.chars().collect())
}

#[test]
fn text_to_int_reads_decimals() {
    assert_eq!(text_to_int(&"42".to_string()), Some(42));
    assert_eq!(text_to_int(&"-7".to_string()), Some(-7));
    assert_eq!(text_to_int(&"0".to_string()), Some(0));
    assert_eq!(text_to_int(&"9223372036854775807".to_string()), Some(i64::MAX));
    assert_eq!(text_to_int(&"-9223372036854775808".to_string()), Some(i64::MIN));
}

#[test]
fn text_to_int_rejects_non_decimals() {
    assert_eq!(text_to_int(&"".to_string()), None);
    assert_eq!(text_to_int(&"-".to_string()), None);
    assert_eq!(text_to_int(&"4a".to_string()), None);
    assert_eq!(text_to_int(&"abc".to_string()), None);
    assert_eq!(text_to_int(&"9223372036854775808".to_string()), None);
    assert_eq!(text_to_int(&"99999999999999999999999".to_string()), None);
}

#[test]
fn parser_reads_all_scalar_kinds() {
    let doc = parse_str(r#"{"a":1,"b":"x","c":true,"d":false,"e":null}"#).unwrap();
    assert_eq!(doc.len(), 5);
    assert_eq!(doc[0], ("a".to_string(), JsonScalar::Int(1)));
    assert_eq!(doc[1], ("b".to_string(), JsonScalar::Text("x".to_string())));
    assert_eq!(doc[2], ("c".to_string(), JsonScalar::Bool(true)));
    assert_eq!(doc[3], ("d".to_string(), JsonScalar::Bool(false)));
    assert_eq!(doc[4], ("e".to_string(), JsonScalar::Null));
}

#[test]
fn parser_reads_empty_document() {
    assert_eq!(parse_str("{}"), Some(vec![]));
}

#[test]
fn parser_unescapes_text() {
    let doc = parse_str(r#"{"k":"a\"b\\c"}"#).unwrap();
    assert_eq!(doc[0].1, JsonScalar::Text("a\"b\\c".to_string()));
}

#[test]
fn parser_rejects_malformed_documents() {
    assert_eq!(parse_str(""), None);
    assert_eq!(parse_str("{"), None);
    assert_eq!(parse_str("{}x"), None);
    assert_eq!(parse_str(r#"{"a":}"#), None);
    assert_eq!(parse_str(r#"{"a":1"#), None);
    assert_eq!(parse_str(r#"{"a":1,}"#), None);
    assert_eq!(parse_str(r#"{"a" : 1}"#), None);
    assert_eq!(parse_str(r#"{"a":tru}"#), None);
    assert_eq!(parse_str(r#"{"a":"unterminated}"#), None);
    assert_eq!(parse_str(r#"[1,2]"#), None);
}

#[test]
fn renderer_output_parses_back_to_the_map() {
    let map = ParameterMap::from_pairs(vec![
        ("id".to_string(), "42".to_string()),
        ("note".to_string(), "say \"hi\" \\ bye".to_string()),
    ]);
    let text: String = render_parameter_map(&map).into_iter().collect();
    let doc = parse_str(&text).unwrap();
    assert_eq!(doc.len(), 2);
    assert_eq!(doc[0], ("id".to_string(), JsonScalar::Text("42".to_string())));
    assert_eq!(
        doc[1],
        ("note".to_string(), JsonScalar::Text("say \"hi\" \\ bye".to_string()))
    );
}

#[test]
fn renderer_emits_canonical_text_for_a_known_map() {
    let map = ParameterMap::from_pairs(vec![("id".to_string(), "42".to_string())]);
    let text: String = render_parameter_map(&map).into_iter().collect();
    assert_eq!(text, r#"{"id":"42"}"#);
}

#[test]
fn parameter_map_keeps_first_binding_of_a_name() {
    let map = ParameterMap::from_pairs(vec![
        ("a".to_string(), "1".to_string()),
        ("a".to_string(), "2".to_string()),
        ("b".to_string(), "3".to_string()),
    ]);
    assert_eq!(map.len(), 2);
    assert_eq!(map.get(&"a".to_string()), Some("1".to_string()));
    assert_eq!(map.get(&"b".to_string()), Some("3".to_string()));
    assert_eq!(map.get(&"c".to_string()), None);
    assert!(map.contains_key(&"a".to_string()));
    assert!(!map.contains_key(&"c".to_string()));
}
