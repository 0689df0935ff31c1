//! What a handler's work comes to: a reply, an error reply, or silence.

use vstd::prelude::*;
use crate::json::{json_view, json_view_members, lemma_json_view_members, Json, JsonValue};
use crate::payload::Payload;

verus! {

/// A handler's result as the protocol sees it.
#[derive(Debug, PartialEq, Eq)]
pub enum Response {
    Okay(JsonValue),
    Error(JsonValue),
    NoReply,
}

/// The model of a response.
pub enum ResponseV {
    Okay(Json),
    Error(Json),
    NoReply,
}

impl View for Response {
    type V = ResponseV;

    open spec fn view(&self) -> ResponseV {
        match self {
            Response::Okay(v) => ResponseV::Okay(v@),
            Response::Error(v) => ResponseV::Error(v@),
            Response::NoReply => ResponseV::NoReply,
        }
    }
}

impl Clone for Response {
    fn clone(&self) -> (res: Self)
        ensures
            res@ == self@,
    {
        match self {
            Response::Okay(v) => Response::Okay(v.clone()),
            Response::Error(v) => Response::Error(v.clone()),
            Response::NoReply => Response::NoReply,
        }
    }
}

/// The reply payload a response serializes to: `{"status":"ok",
/// "response":v}`, `{"status":"error","response":v}`, or `null`.
pub open spec fn response_json(r: ResponseV) -> Json {
    match r {
        ResponseV::Okay(v) => Json::Obj(seq![("status"@, Json::Str("ok"@)), ("response"@, v)]),
        ResponseV::Error(v) => Json::Obj(seq![("status"@, Json::Str("error"@)), ("response"@, v)]),
        ResponseV::NoReply => Json::Null,
    }
}

impl Response {
    /// The reply payload as a JSON value.
    pub fn to_value(self) -> (r: JsonValue)
        ensures
            r@ == response_json(self@),
    {
        let ghost model = response_json(self@);
        match self {
            Response::Okay(v) => {
                let mut members: Vec<(String, JsonValue)> = Vec::new();
                members.push(("status".to_owned(), JsonValue::Str("ok".to_owned())));
                members.push(("response".to_owned(), v));
                let r = JsonValue::Obj(members);
                proof {
                    lemma_json_view_members(r->Obj_0@);
                    assert(json_view_members(r->Obj_0@) =~= model->Obj_0);
                    assert(r@ =~~= model);
                }
                r
            },
            Response::Error(v) => {
                let mut members: Vec<(String, JsonValue)> = Vec::new();
                members.push(("status".to_owned(), JsonValue::Str("error".to_owned())));
                members.push(("response".to_owned(), v));
                let r = JsonValue::Obj(members);
                proof {
                    lemma_json_view_members(r->Obj_0@);
                    assert(json_view_members(r->Obj_0@) =~= model->Obj_0);
                    assert(r@ =~~= model);
                }
                r
            },
            Response::NoReply => JsonValue::Null,
        }
    }

    /// The reply payload, wrapped for a frame.
    pub fn to_payload(self) -> (r: Payload)
        ensures
            r@ == response_json(self@),
    {
        Payload(self.to_value())
    }
}

} // verus!
