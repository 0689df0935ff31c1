//! A Phoenix-Channels-compatible messaging layer for WebSocket transports.
//!
//! A connected client multiplexes many logical channels, keyed by a
//! hierarchical topic string such as `room:lobby`, over a single socket.
//! This crate holds the verified core: the wire framing codec, the topic
//! router, the per-connection dispatch state machine, and the registry that
//! tracks outbound senders and topic membership. The surrounding
//! application owns the transport: it reads and writes socket frames,
//! runs the caller's asynchronous handlers, and drives the dispatch
//! steps this crate decides.

pub mod assigns;
pub mod channel;
pub mod event;
pub mod external;
pub mod handler;
pub mod json;
pub mod message;
pub mod payload;
pub mod socket;
pub mod topic;
pub mod user_id;
pub mod websocket;
pub mod websocket_error;
pub mod websocket_state;

pub use channel::Channel;
pub use payload::Payload;
pub use socket::Socket;
pub use topic::Topic;
pub use websocket::WebSocket;
pub use websocket_error::WebSocketError;
pub use websocket_state::WebSocketState;
