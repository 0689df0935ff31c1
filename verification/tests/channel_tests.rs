use axum_ws::channel::Channel;
use axum_ws::handler::into_response::IntoResponse;
use axum_ws::handler::response::Response;
use axum_ws::handler::HandlerWrapper;
use axum_ws::json::JsonValue;
use axum_ws::payload::Payload;
use axum_ws::socket::Socket;
use axum_ws::topic::Topic;
use axum_ws::websocket::WebSocket;

type JoinFn = fn(Topic, Payload, &mut Socket) -> Result<JsonValue, String>;
type HandlerFn = fn(Payload, &mut Socket) -> Response;

fn join(_topic: Topic, _payload: Payload, socket: &mut Socket) -> Result<JsonValue, String> {
    socket.assigns.insert("test", 0, JsonValue::Num("1".to_string()));
    Ok(JsonValue::Str("ok".to_string()))
}

fn event1(_payload: Payload, _socket: &mut Socket) -> Response {
    Response::NoReply
}

fn event2_inner(_payload: Payload, _socket: &mut Socket) {}

fn event2(payload: Payload, socket: &mut Socket) -> Response {
    event2_inner(payload, socket).into_response()
}

#[test]
fn channel_callback_should_work() {
    let channel: Channel<JoinFn, HandlerFn> = Channel::new()
        .join(join as JoinFn)
        .handler("event1", event1 as HandlerFn)
        .handler("event2", event2 as HandlerFn);

    let mut socket = Socket::new("", "");

    let join_fn = channel.join.as_ref().unwrap();
    join_fn(Topic::from(""), Payload::default(), &mut socket).unwrap();

    let i = channel.find_handler("event1").unwrap();
    let response = channel.handler_at(i)(Payload::default(), &mut Socket::new("", ""));
    assert_eq!(response, Response::NoReply);

    let i = channel.find_handler("event2").unwrap();
    let response = channel.handler_at(i)(Payload::default(), &mut Socket::new("", ""));
    assert_eq!(response, Response::NoReply);

    let i = channel.find_handler("event1").unwrap();
    let response = channel.handler_at(i)(Payload::default(), &mut Socket::new("", ""));
    assert_eq!(response, Response::NoReply);
}

fn test_connect(_payload: Payload, _socket: &mut Socket) -> Response {
    Response::NoReply
}

struct HandlerStore {
    pub handler: HandlerWrapper<HandlerFn>,
}

#[test]
fn connect_wrapper_should_work() {
    let connect = HandlerWrapper::new(test_connect as HandlerFn);
    let store = HandlerStore { handler: connect };

    let payload = Payload::from(JsonValue::Obj(vec![(
        "test".to_string(),
        JsonValue::Str("ok".to_string()),
    )]));
    let mut socket = Socket::new("", "");

    let response = (store.handler.handler)(payload, &mut socket);

    assert_eq!(response, Response::NoReply);
}

type ConnectHook = fn(JsonValue, &mut Socket);
type IdHook = fn(&Socket) -> Option<String>;

fn ws_test_connect(_params: JsonValue, socket: &mut Socket) {
    socket.assigns.insert("test", 0, JsonValue::Num("1".to_string()));
}

fn ws_test_id(_socket: &Socket) -> Option<String> {
    Some("test".to_string())
}

#[test]
fn websocket_callback_should_work() {
    let websocket: WebSocket<ConnectHook, IdHook, JoinFn, HandlerFn> = WebSocket::new("/test")
        .connect(ws_test_connect as ConnectHook)
        .id(ws_test_id as IdHook);

    let id = websocket.id.unwrap();
    let response = id(&Socket::new("", "/test"));
    assert_eq!(response, Some("test".to_string()));
}

#[test]
fn later_handler_registration_wins() {
    let channel: Channel<JoinFn, HandlerFn> = Channel::new()
        .handler("ping", event1 as HandlerFn)
        .handler("ping", event2 as HandlerFn);
    let i = channel.find_handler("ping").unwrap();
    assert_eq!(i, 1);
    assert!(channel.find_handler("pong").is_none());
}

fn event3(_payload: Payload, _socket: &mut Socket) -> Response {
    Response::Okay(JsonValue::Null)
}

#[test]
fn later_channel_registration_wins() {
    let first: Channel<JoinFn, HandlerFn> = Channel::new().handler("ping", event1 as HandlerFn);
    let second: Channel<JoinFn, HandlerFn> = Channel::new().handler("ping", event3 as HandlerFn);
    let ws: WebSocket<ConnectHook, IdHook, JoinFn, HandlerFn> = WebSocket::new("/chat")
        .channel(Topic::from("room:*"), first)
        .channel(Topic::from("room:*"), second);

    let ci = ws.find_channel(&Topic::from("room:lobby")).unwrap();
    assert_eq!(ci, 1);
    let channel = ws.channel_at(ci);
    let hi = channel.find_handler("ping").unwrap();
    let response = channel.handler_at(hi)(Payload::default(), &mut Socket::new("", ""));
    assert_eq!(response, Response::Okay(JsonValue::Null));
}
