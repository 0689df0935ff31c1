use axum_ws::handler::into_response::IntoResponse;
use axum_ws::handler::response::Response;
use axum_ws::json::JsonValue;

fn test_with_ok() -> Result<JsonValue, String> {
    Ok(JsonValue::Str("test".to_string()))
}

fn test_with_error() -> Result<JsonValue, String> {
    Err("error".to_string())
}

fn test_with_custom_error() -> Result<JsonValue, String> {
    Err("error".to_string())
}

fn test_with_empty() {}

#[test]
fn test_into_response() {
    let response = test_with_ok();
    assert_eq!(response.into_response(), Response::Okay(JsonValue::Str("test".to_string())));

    let response = test_with_error();
    assert_eq!(response.into_response(), Response::Error(JsonValue::Str("error".to_string())));

    let response = test_with_custom_error();
    assert_eq!(response.into_response(), Response::Error(JsonValue::Str("error".to_string())));

    let response = test_with_empty();
    assert_eq!(response.into_response(), Response::NoReply);
}

#[test]
fn null_success_becomes_no_reply() {
    let response: Result<JsonValue, String> = Ok(JsonValue::Null);
    assert_eq!(response.into_response(), Response::NoReply);
}

#[test]
fn json_error_text_is_parsed() {
    let response: Result<JsonValue, String> = Err("{\"k\":1}".to_string());
    assert_eq!(
        response.into_response(),
        Response::Error(JsonValue::Obj(vec![("k".to_string(), JsonValue::Num("1".to_string()))]))
    );

    let response: Result<JsonValue, String> = Err("plain".to_string());
    assert_eq!(response.into_response(), Response::Error(JsonValue::Str("plain".to_string())));
}

#[test]
fn response_payload_shapes() {
    let ok = Response::Okay(JsonValue::Str("x".to_string())).to_value();
    assert_eq!(ok.to_text(), "{\"status\":\"ok\",\"response\":\"x\"}");

    let err = Response::Error(JsonValue::Str("e".to_string())).to_value();
    assert_eq!(err.to_text(), "{\"status\":\"error\",\"response\":\"e\"}");

    let none = Response::NoReply.to_value();
    assert_eq!(none.to_text(), "null");
}
