//! The payload of a frame: a JSON value carried through unchanged.

use vstd::prelude::*;
use crate::json::{Json, JsonValue};

verus! {

/// A transparent wrapper over a JSON value.
#[derive(Debug, PartialEq, Eq)]
pub struct Payload(pub JsonValue);

impl View for Payload {
    type V = Json;

    open spec fn view(&self) -> Json {
        self.0@
    }
}

impl Clone for Payload {
    fn clone(&self) -> (res: Self)
        ensures
            res@ == self@,
    {
        Payload(self.0.clone())
    }
}

impl Payload {
    /// Wraps a JSON value.
    pub fn from(value: JsonValue) -> (r: Payload)
        ensures
            r@ == value@,
    {
        Payload(value)
    }

    /// The payload's JSON value.
    pub fn into_value(self) -> (r: JsonValue)
        ensures
            r@ == self@,
    {
        self.0
    }

    /// A `null` payload.
    pub fn null() -> (r: Payload)
        ensures
            r@ == Json::Null,
    {
        Payload(JsonValue::Null)
    }
}

impl Default for Payload {
    /// A `null` payload.
    fn default() -> (r: Self)
        ensures
            r@ == Json::Null,
    {
        Payload(JsonValue::Null)
    }
}

} // verus!
