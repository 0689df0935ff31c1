use axum_ws::channel::Channel;
use axum_ws::handler::into_response::IntoResponse;
use axum_ws::json::JsonValue;
use axum_ws::message::Message;
use axum_ws::socket::Socket;
use axum_ws::topic::Topic;
use axum_ws::user_id::UserId;
use axum_ws::websocket::{complete_custom, complete_join, Step, WebSocket};
use axum_ws::websocket_state::WebSocketState;

type Ws = WebSocket<(), (), (), ()>;

fn obj(entries: Vec<(&str, JsonValue)>) -> JsonValue {
    JsonValue::Obj(entries.into_iter().map(|(k, v)| (k.to_string(), v)).collect())
}

#[test]
fn join_success() {
    let ws: Ws = WebSocket::new("/chat").channel(Topic::from("room:*"), Channel::new().join(()));
    let mut reg = WebSocketState::new();
    let mut sock = Socket::new("conn", "/chat");
    let mut joined: Vec<Topic> = Vec::new();

    let frame = Message::decode(r#"["1","2","room:lobby","phx_join",{}]"#).unwrap();
    let topic = frame.topic.clone();
    let step = ws.handle_frame(&mut reg, &mut sock, &mut joined, frame);
    match step {
        Step::RunJoin(_) => {},
        _ => panic!("expected a join dispatch"),
    }

    let result: Result<JsonValue, String> = Ok(obj(vec![("ok", JsonValue::Bool(true))]));
    let reply = complete_join(&mut reg, &mut sock, &mut joined, topic, result);
    assert_eq!(
        reply.encode(),
        r#"["1","2","room:lobby","phx_reply",{"status":"ok","response":{"ok":true}}]"#
    );

    let members = reg
        .get_users(&("/chat".to_string(), Topic::from("room:lobby")))
        .unwrap();
    assert_eq!(members.len(), 1);
    assert_eq!(members[0].as_str(), "conn");
    assert!(sock.joined);
}

#[test]
fn join_rejection_unmatched_topic() {
    let ws: Ws = WebSocket::new("/chat");
    let mut reg = WebSocketState::new();
    let mut sock = Socket::new("conn", "/chat");
    let mut joined: Vec<Topic> = Vec::new();

    let frame = Message::decode(r#"["1","2","chat:1","phx_join",{}]"#).unwrap();
    let step = ws.handle_frame(&mut reg, &mut sock, &mut joined, frame);
    match step {
        Step::RejectedJoin(reply) => {
            assert_eq!(
                reply.encode(),
                r#"["1","2","chat:1","phx_reply",{"status":"error","response":"unmatched topic"}]"#
            );
        },
        _ => panic!("expected a rejection"),
    }
    assert!(reg.get_users(&("/chat".to_string(), Topic::from("chat:1"))).is_none());
}

#[test]
fn heartbeat() {
    let ws: Ws = WebSocket::new("/chat");
    let mut reg = WebSocketState::new();
    let mut sock = Socket::new("conn", "/chat");
    let mut joined: Vec<Topic> = Vec::new();

    let frame = Message::decode(r#"[null,"3","phoenix","heartbeat",{}]"#).unwrap();
    let step = ws.handle_frame(&mut reg, &mut sock, &mut joined, frame);
    match step {
        Step::Replied(reply) => {
            assert_eq!(
                reply.encode(),
                r#"[null,"3","phoenix","heartbeat",{"status":"ok","response":{}}]"#
            );
        },
        _ => panic!("expected a heartbeat reply"),
    }
}

#[test]
fn custom_event_reply() {
    let ws: Ws = WebSocket::new("/chat").channel(
        Topic::from("room:*"),
        Channel::new().join(()).handler("ping", ()),
    );
    let mut reg = WebSocketState::new();
    let mut sock = Socket::new("conn", "/chat");
    let mut joined: Vec<Topic> = Vec::new();

    let join_frame = Message::decode(r#"["1","2","room:lobby","phx_join",{}]"#).unwrap();
    let topic = join_frame.topic.clone();
    ws.handle_frame(&mut reg, &mut sock, &mut joined, join_frame);
    complete_join(&mut reg, &mut sock, &mut joined, topic, Ok(JsonValue::Null));

    let frame = Message::decode(r#"["1","5","room:lobby","ping",{}]"#).unwrap();
    let step = ws.handle_frame(&mut reg, &mut sock, &mut joined, frame);
    match step {
        Step::RunHandler(ci, hi) => {
            assert_eq!(ci, 0);
            assert_eq!(hi, 0);
        },
        _ => panic!("expected a handler dispatch"),
    }

    let handler_result: Result<JsonValue, String> = Ok(JsonValue::Str("pong".to_string()));
    let reply = complete_custom(&reg, &sock, handler_result.into_response()).unwrap();
    assert_eq!(
        reply.encode(),
        r#"["1","5","room:lobby","phx_reply",{"status":"ok","response":"pong"}]"#
    );
}

#[test]
fn custom_event_without_join_is_dropped() {
    let ws: Ws = WebSocket::new("/chat").channel(
        Topic::from("room:*"),
        Channel::new().join(()).handler("ping", ()),
    );
    let mut reg = WebSocketState::new();
    let mut sock = Socket::new("conn", "/chat");
    let mut joined: Vec<Topic> = Vec::new();

    let frame = Message::decode(r#"["1","5","room:lobby","ping",{}]"#).unwrap();
    match ws.handle_frame(&mut reg, &mut sock, &mut joined, frame) {
        Step::Ignored => {},
        _ => panic!("expected the event to be dropped"),
    }
}

#[test]
fn no_reply_sends_nothing() {
    let reg = WebSocketState::new();
    let sock = Socket::new("conn", "/chat");
    let unit_result = ();
    assert!(complete_custom(&reg, &sock, unit_result.into_response()).is_none());
}

#[test]
fn broadcast_from_excludes_sender() {
    let mut reg = WebSocketState::new();
    let (tx_a, mut rx_a) = tokio::sync::mpsc::channel::<Message>(8);
    let (tx_b, mut rx_b) = tokio::sync::mpsc::channel::<Message>(8);
    reg.insert_sender("A", tx_a);
    reg.insert_sender("B", tx_b);
    reg.insert_user(("/chat".to_string(), Topic::from("room:1")), UserId::from("A"));
    reg.insert_user(("/chat".to_string(), Topic::from("room:1")), UserId::from("B"));

    let mut sock_a = Socket::new("A", "/chat");
    sock_a.set_topic(Topic::from("room:1"));

    let data: Result<JsonValue, String> = Ok(obj(vec![("x", JsonValue::Num("1".to_string()))]));
    let plan = sock_a.broadcast_from(&reg, "A", "msg", data);

    assert_eq!(plan.len(), 1);
    assert_eq!(plan[0].0.as_str(), "B");

    let delivered = rx_b.try_recv().unwrap();
    assert_eq!(
        delivered.encode(),
        r#"[null,null,"room:1","msg",{"status":"ok","response":{"x":1}}]"#
    );
    assert!(rx_a.try_recv().is_err());
}

#[test]
fn broadcast_reaches_everyone() {
    let mut reg = WebSocketState::new();
    let (tx_a, mut rx_a) = tokio::sync::mpsc::channel::<Message>(8);
    let (tx_b, mut rx_b) = tokio::sync::mpsc::channel::<Message>(8);
    reg.insert_sender("A", tx_a);
    reg.insert_sender("B", tx_b);
    reg.insert_user(("/chat".to_string(), Topic::from("room:1")), UserId::from("A"));
    reg.insert_user(("/chat".to_string(), Topic::from("room:1")), UserId::from("B"));

    let mut sock_a = Socket::new("A", "/chat");
    sock_a.set_topic(Topic::from("room:1"));

    let data: Result<JsonValue, String> = Ok(JsonValue::Str("hi".to_string()));
    let plan = sock_a.broadcast(&reg, "msg", data);

    assert_eq!(plan.len(), 2);
    assert!(rx_a.try_recv().is_ok());
    assert!(rx_b.try_recv().is_ok());
}

#[test]
fn leave_emits_reply_then_close() {
    let ws: Ws = WebSocket::new("/chat").channel(Topic::from("room:*"), Channel::new().join(()));
    let mut reg = WebSocketState::new();
    let (tx, mut rx) = tokio::sync::mpsc::channel::<Message>(8);
    reg.insert_sender("conn", tx);
    let mut sock = Socket::new("conn", "/chat");
    let mut joined: Vec<Topic> = Vec::new();

    let join_frame = Message::decode(r#"["1","2","room:lobby","phx_join",{}]"#).unwrap();
    let topic = join_frame.topic.clone();
    ws.handle_frame(&mut reg, &mut sock, &mut joined, join_frame);
    complete_join(&mut reg, &mut sock, &mut joined, topic, Ok(JsonValue::Null));
    assert!(reg.get_users(&("/chat".to_string(), Topic::from("room:lobby"))).is_some());
    rx.try_recv().unwrap();

    let frame = Message::decode(r#"["1","9","room:lobby","phx_leave",{}]"#).unwrap();
    let step = ws.handle_frame(&mut reg, &mut sock, &mut joined, frame);
    match step {
        Step::RepliedTwo(reply, close) => {
            assert_eq!(
                reply.encode(),
                r#"["1","9","room:lobby","phx_reply",{"status":"ok","response":{}}]"#
            );
            assert_eq!(close.encode(), r#"["1","9","room:lobby","phx_close",null]"#);
        },
        _ => panic!("expected a reply and a close"),
    }
    assert!(reg.get_users(&("/chat".to_string(), Topic::from("room:lobby"))).is_none());

    let first = rx.try_recv().unwrap();
    let second = rx.try_recv().unwrap();
    assert_eq!(
        first.encode(),
        r#"["1","9","room:lobby","phx_reply",{"status":"ok","response":{}}]"#
    );
    assert_eq!(second.encode(), r#"["1","9","room:lobby","phx_close",null]"#);
}

#[test]
fn join_without_join_handler_is_dropped() {
    let ws: Ws = WebSocket::new("/chat").channel(Topic::from("room:*"), Channel::new());
    let mut reg = WebSocketState::new();
    let mut sock = Socket::new("conn", "/chat");
    let mut joined: Vec<Topic> = Vec::new();

    let frame = Message::decode(r#"["1","2","room:lobby","phx_join",{}]"#).unwrap();
    match ws.handle_frame(&mut reg, &mut sock, &mut joined, frame) {
        Step::Ignored => {},
        _ => panic!("expected the join to be dropped"),
    }
    assert!(reg.get_users(&("/chat".to_string(), Topic::from("room:lobby"))).is_none());
}
