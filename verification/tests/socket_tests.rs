use axum_ws::json::JsonValue;
use axum_ws::message::Message;
use axum_ws::socket::Socket;
use axum_ws::websocket::open_connection;
use axum_ws::websocket_state::WebSocketState;

#[test]
fn open_connection_registers_a_sender() {
    let mut reg = WebSocketState::new();
    let (sock, mut rx) = open_connection(&mut reg, "/chat");

    assert_eq!(sock.id.len(), 21);
    assert_eq!(sock.path, "/chat");
    assert!(!sock.joined);
    assert!(reg.get_sender(&sock.id).is_some());

    let frame = Message::decode(r#"[null,null,"t","e",1]"#).unwrap();
    sock.push_message(&reg, frame);
    let delivered = rx.try_recv().unwrap();
    assert_eq!(delivered.encode(), r#"[null,null,"t","e",1]"#);
}

#[test]
fn push_merges_the_stored_refs() {
    let mut reg = WebSocketState::new();
    let (tx, mut rx) = tokio::sync::mpsc::channel::<Message>(8);
    reg.insert_sender("c", tx);

    let mut sock = Socket::new("c", "/chat");
    let inbound = Message::decode(r#"["4","5","room:x","ping",{}]"#).unwrap();
    sock.set_message(inbound);

    let data: Result<JsonValue, String> = Ok(JsonValue::Str("hi".to_string()));
    let (sent, delivered) = sock.push(&reg, "custom_ev", data);
    assert!(delivered);
    assert_eq!(
        sent.encode(),
        r#"["4","5","room:x","custom_ev",{"status":"ok","response":"hi"}]"#
    );
    assert_eq!(rx.try_recv().unwrap().encode(), sent.encode());
}

#[test]
fn push_without_stored_frame_has_no_refs() {
    let reg = WebSocketState::new();
    let sock = Socket::new("c", "/chat");
    let data: Result<JsonValue, String> = Err("boom".to_string());
    let (sent, delivered) = sock.push(&reg, "ev", data);
    assert!(!delivered);
    assert_eq!(sent.encode(), r#"[null,null,"","ev",{"status":"error","response":"boom"}]"#);
}

#[test]
fn broadcast_stamps_stored_refs() {
    let mut reg = WebSocketState::new();
    let (tx, mut rx) = tokio::sync::mpsc::channel::<Message>(8);
    reg.insert_sender("b", tx);
    reg.insert_user(
        ("/chat".to_string(), axum_ws::Topic::from("room:1")),
        axum_ws::user_id::UserId::from("b"),
    );

    let mut sock = Socket::new("a", "/chat");
    sock.set_topic(axum_ws::Topic::from("room:1"));
    sock.set_message(Message::decode(r#"["7","8","room:1","shout",{}]"#).unwrap());

    let data: Result<JsonValue, String> = Ok(JsonValue::Str("hi".to_string()));
    let plan = sock.broadcast(&reg, "msg", data);
    assert_eq!(plan.len(), 1);
    assert_eq!(
        rx.try_recv().unwrap().encode(),
        r#"["7","8","room:1","msg",{"status":"ok","response":"hi"}]"#
    );
}
