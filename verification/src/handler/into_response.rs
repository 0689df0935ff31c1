//! Coercion of handler return values into protocol responses.

use vstd::prelude::*;
use crate::handler::response::{Response, ResponseV};
use crate::json::{parse_json, Json, JsonValue};

verus! {

/// How a handler's return value becomes a response. The conversions are
/// fixed by the protocol and clients rely on them exactly.
pub trait IntoResponse: Sized {
    /// The response this value stands for.
    spec fn resp_spec(&self) -> ResponseV;

    /// Converts the value into its response.
    fn into_response(self) -> (r: Response)
        ensures
            r@ == self.resp_spec(),
    ;
}

impl IntoResponse for Response {
    open spec fn resp_spec(&self) -> ResponseV {
        self@
    }

    fn into_response(self) -> (r: Response) {
        self
    }
}

impl IntoResponse for () {
    /// The unit value asks for no reply.
    open spec fn resp_spec(&self) -> ResponseV {
        ResponseV::NoReply
    }

    fn into_response(self) -> (r: Response) {
        Response::NoReply
    }
}

impl IntoResponse for Result<JsonValue, String> {
    /// A success carrying `null` asks for no reply; any other success is
    /// an ok reply. An error's text is parsed as JSON and used when it
    /// parses; otherwise the text itself is the error value.
    open spec fn resp_spec(&self) -> ResponseV {
        match self {
            Ok(v) => if v@ is Null {
                ResponseV::NoReply
            } else {
                ResponseV::Okay(v@)
            },
            Err(e) => match parse_json(e@) {
                Some(j) => ResponseV::Error(j),
                None => ResponseV::Error(Json::Str(e@)),
            },
        }
    }

    fn into_response(self) -> (r: Response) {
        match self {
            Ok(v) => {
                if v.is_null() {
                    Response::NoReply
                } else {
                    Response::Okay(v)
                }
            },
            Err(e) => {
                match JsonValue::parse_text(e.as_str()) {
                    Some(j) => Response::Error(j),
                    None => Response::Error(JsonValue::Str(e)),
                }
            },
        }
    }
}

} // verus!
