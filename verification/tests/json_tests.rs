use axum_ws::json::JsonValue;

#[test]
fn parse_and_print_values() {
    let v = JsonValue::parse_text("[1,-2.5e3,\"a\",true,false,null,{\"k\":[]}]").unwrap();
    assert_eq!(v.to_text(), "[1,-2.5e3,\"a\",true,false,null,{\"k\":[]}]");
}

#[test]
fn parse_rejects_malformed_text() {
    assert!(JsonValue::parse_text("").is_none());
    assert!(JsonValue::parse_text("[1,").is_none());
    assert!(JsonValue::parse_text("{\"a\"}").is_none());
    assert!(JsonValue::parse_text("nul").is_none());
    assert!(JsonValue::parse_text("01").is_none());
    assert!(JsonValue::parse_text("1 2").is_none());
}

#[test]
fn parse_decodes_escapes() {
    let v = JsonValue::parse_text("\"a\\n\\t\\\\\\\"\\u0041\"").unwrap();
    assert_eq!(v, JsonValue::Str("a\n\t\\\"A".to_string()));
}

#[test]
fn parse_decodes_surrogate_pairs() {
    let v = JsonValue::parse_text("\"\\ud83d\\ude00\"").unwrap();
    assert_eq!(v, JsonValue::Str("\u{1F600}".to_string()));
}

#[test]
fn printing_escapes_control_characters() {
    let v = JsonValue::Str("a\u{1}b".to_string());
    assert_eq!(v.to_text(), "\"a\\u0001b\"");
    assert_eq!(JsonValue::parse_text(&v.to_text()).unwrap(), v);
}

#[test]
fn object_order_is_preserved() {
    let v = JsonValue::Obj(vec![
        ("z".to_string(), JsonValue::Num("1".to_string())),
        ("a".to_string(), JsonValue::Num("2".to_string())),
    ]);
    assert_eq!(v.to_text(), "{\"z\":1,\"a\":2}");
}
