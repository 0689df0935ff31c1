use axum_ws::json::JsonValue;
use axum_ws::socket::Socket;

#[test]
fn assigns_replace_under_same_name_and_tag() {
    let mut socket = Socket::new("c", "/chat");
    socket.assigns.insert("count", 0, JsonValue::Num("1".to_string()));
    socket.assigns.insert("count", 0, JsonValue::Num("2".to_string()));
    assert_eq!(socket.assigns.get("count", 0), Some(&JsonValue::Num("2".to_string())));
}

#[test]
fn assigns_with_different_tags_coexist() {
    let mut socket = Socket::new("c", "/chat");
    socket.assigns.insert("value", 0, JsonValue::Str("text".to_string()));
    socket.assigns.insert("value", 1, JsonValue::Bool(true));
    assert_eq!(socket.assigns.get("value", 0), Some(&JsonValue::Str("text".to_string())));
    assert_eq!(socket.assigns.get("value", 1), Some(&JsonValue::Bool(true)));
    assert_eq!(socket.assigns.get("other", 0), None);
}
