use axum_ws::event::Event;
use axum_ws::handler::response::Response;
use axum_ws::json::JsonValue;
use axum_ws::message::Message;
use axum_ws::payload::Payload;

fn obj(entries: Vec<(&str, JsonValue)>) -> JsonValue {
    JsonValue::Obj(entries.into_iter().map(|(k, v)| (k.to_string(), v)).collect())
}

#[test]
fn message_heartbeat_should_work() {
    let message = Message::builder()
        .event("heartbeat")
        .payload(Response::Okay(obj(vec![])).to_payload())
        .build()
        .unwrap();

    assert_eq!(message.event, Event::Heartbeat);
    assert_eq!(message.payload, Response::Okay(obj(vec![])).to_payload());
}

#[test]
fn message_ok_should_work() {
    let message = Message::builder()
        .event("reply")
        .payload(Response::Okay(obj(vec![("test", JsonValue::Str("ok".to_string()))])).to_payload())
        .build()
        .unwrap();

    assert_eq!(message.event, Event::Reply);
    assert_eq!(
        message.payload,
        Response::Okay(obj(vec![("test", JsonValue::Str("ok".to_string()))])).to_payload()
    );
}

#[test]
fn message_err_should_work() {
    let message = Message::builder()
        .event("reply")
        .payload(Response::Error(obj(vec![("test", JsonValue::Str("err".to_string()))])).to_payload())
        .build()
        .unwrap();

    assert_eq!(message.event, Event::Reply);
    assert_eq!(
        message.payload,
        Response::Error(obj(vec![("test", JsonValue::Str("err".to_string()))])).to_payload()
    );
}

#[test]
fn message_close_should_work() {
    let message = Message::builder()
        .event("close")
        .payload(Payload::from(obj(vec![])))
        .build()
        .unwrap();

    assert_eq!(message.event, Event::Close);
    assert_eq!(message.payload, Payload::from(obj(vec![])));
}

#[test]
fn frame_round_trip() {
    let text = r#"["1","2","room:lobby","phx_join",{"a":[1,2.5,true,null],"b":"x"}]"#;
    let frame = Message::decode(text).unwrap();
    let encoded = frame.encode();
    assert_eq!(encoded, text);
    let again = Message::decode(&encoded).unwrap();
    assert_eq!(again, frame);
}

#[test]
fn decode_merge_refs() {
    let inbound = Message::decode(r#"["7","8","room:a","phx_join",{}]"#).unwrap();
    let mut outbound = Message::decode(r#"[null,null,"x","phx_reply",null]"#).unwrap();
    outbound.merge(&inbound);
    assert_eq!(outbound.join_ref, Some("7".to_string()));
    assert_eq!(outbound.message_ref, Some("8".to_string()));
    assert_eq!(outbound.topic.as_str(), "room:a");
    assert_eq!(outbound.event, Event::Reply);
}

#[test]
fn decode_rejects_bad_frames() {
    match Message::decode("not json") {
        Err(e) => assert_eq!(e.message(), "not json"),
        Ok(_) => panic!("accepted garbage"),
    }
    match Message::decode(r#"["1","2","t","e"]"#) {
        Err(e) => assert_eq!(e.message(), r#"["1","2","t","e"]"#),
        Ok(_) => panic!("accepted a four-element frame"),
    }
    match Message::decode(r#"["1","2",3,"e",{}]"#) {
        Err(e) => assert_eq!(e.message(), "topic is required"),
        Ok(_) => panic!("accepted a numeric topic"),
    }
    match Message::decode(r#"["1","2","t",4,{}]"#) {
        Err(e) => assert_eq!(e.message(), "event is required"),
        Ok(_) => panic!("accepted a numeric event"),
    }
}

#[test]
fn decode_non_string_refs_are_absent() {
    let frame = Message::decode(r#"[7,{},"t","e",{}]"#).unwrap();
    assert_eq!(frame.join_ref, None);
    assert_eq!(frame.message_ref, None);
}

#[test]
fn decode_accepts_whitespace() {
    let frame = Message::decode(" [ null , \"3\" , \"phoenix\" , \"heartbeat\" , { } ] ").unwrap();
    assert_eq!(frame.event, Event::Heartbeat);
    assert_eq!(frame.message_ref, Some("3".to_string()));
}

#[test]
fn encode_escapes_strings() {
    let frame = Message {
        join_ref: None,
        message_ref: None,
        topic: axum_ws::Topic::from("t"),
        event: Event::Custom("e".to_string()),
        payload: Payload::from(JsonValue::Str("a\"b\\c\nd".to_string())),
    };
    let text = frame.encode();
    assert_eq!(text, "[null,null,\"t\",\"e\",\"a\\\"b\\\\c\\nd\"]");
    let back = Message::decode(&text).unwrap();
    assert_eq!(back.payload, Payload::from(JsonValue::Str("a\"b\\c\nd".to_string())));
}
