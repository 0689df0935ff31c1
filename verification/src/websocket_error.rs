//! The library's error type.

use vstd::prelude::*;

verus! {

/// What can go wrong inside the library: a frame that does not follow
/// the wire format. Transport and application errors arise outside the
/// library and stay with the caller.
#[derive(Debug, PartialEq, Eq)]
pub enum WebSocketError {
    /// The offending source text, or a short description of the missing
    /// element.
    InvalidMessage(String),
}

/// The model of an error.
pub enum WebSocketErrorV {
    InvalidMessage(Seq<char>),
}

impl View for WebSocketError {
    type V = WebSocketErrorV;

    open spec fn view(&self) -> WebSocketErrorV {
        match self {
            WebSocketError::InvalidMessage(s) => WebSocketErrorV::InvalidMessage(s@),
        }
    }
}

impl Clone for WebSocketError {
    fn clone(&self) -> (res: Self)
        ensures
            res == *self,
    {
        match self {
            WebSocketError::InvalidMessage(s) => WebSocketError::InvalidMessage(s.clone()),
        }
    }
}

impl WebSocketError {
    /// A short description of the error.
    pub fn message(&self) -> (r: String)
        ensures
            self@ is InvalidMessage ==> r@ == self@->InvalidMessage_0,
    {
        match self {
            WebSocketError::InvalidMessage(s) => s.clone(),
        }
    }
}

} // verus!
