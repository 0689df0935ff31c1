//! The wire frame: a five-element JSON array
//! `[join_ref, msg_ref, topic, event, payload]`.

use vstd::prelude::*;
use crate::event::{event_of_name, reserved_name, wire_name_of, Event, EventV};
use crate::json::{
    json_view_seq, lemma_json_round_trip, lemma_json_view_seq, parse_json, print_json, wf_json,
    Json, JsonValue,
};
use crate::payload::Payload;
use crate::topic::Topic;
use crate::websocket_error::{WebSocketError, WebSocketErrorV};

verus! {

/// One protocol frame. The two refs are chosen by the client and echoed
/// by the server so the client can correlate replies.
#[derive(Debug, PartialEq, Eq)]
pub struct Message {
    pub join_ref: Option<String>,
    pub message_ref: Option<String>,
    pub topic: Topic,
    pub event: Event,
    pub payload: Payload,
}

/// The model of a frame.
#[verifier::ext_equal]
pub struct MessageV {
    pub join_ref: Option<Seq<char>>,
    pub message_ref: Option<Seq<char>>,
    pub topic: Seq<char>,
    pub event: EventV,
    pub payload: Json,
}

pub open spec fn ref_view(r: Option<String>) -> Option<Seq<char>> {
    match r {
        Some(s) => Some(s@),
        None => None,
    }
}

impl View for Message {
    type V = MessageV;

    open spec fn view(&self) -> MessageV {
        MessageV {
            join_ref: ref_view(self.join_ref),
            message_ref: ref_view(self.message_ref),
            topic: self.topic@,
            event: self.event@,
            payload: self.payload@,
        }
    }
}

impl Clone for Message {
    fn clone(&self) -> (res: Self)
        ensures
            res@ == self@,
    {
        Message {
            join_ref: clone_ref(&self.join_ref),
            message_ref: clone_ref(&self.message_ref),
            topic: self.topic.clone(),
            event: self.event.clone(),
            payload: self.payload.clone(),
        }
    }
}

/// Copies an optional ref.
fn clone_ref(r: &Option<String>) -> (res: Option<String>)
    ensures
        ref_view(res) == ref_view(*r),
{
    match r {
        Some(s) => Some(s.clone()),
        None => None,
    }
}

// ---------------------------------------------------------------------------
// Encoding
// ---------------------------------------------------------------------------

/// A ref on the wire: its string, or `null` when absent.
pub open spec fn ref_json(r: Option<Seq<char>>) -> Json {
    match r {
        Some(s) => Json::Str(s),
        None => Json::Null,
    }
}

/// The frame as a JSON value: the five elements in order.
pub open spec fn frame_json(m: MessageV) -> Json {
    Json::Arr(
        seq![
            ref_json(m.join_ref),
            ref_json(m.message_ref),
            Json::Str(m.topic),
            Json::Str(wire_name_of(m.event)),
            m.payload,
        ],
    )
}

/// The wire text of a frame.
pub open spec fn encode_spec(m: MessageV) -> Seq<char> {
    print_json(frame_json(m))
}

// ---------------------------------------------------------------------------
// Decoding
// ---------------------------------------------------------------------------

/// A ref read off a wire element: a string stays, anything else becomes
/// an absent ref.
pub open spec fn str_opt(j: Json) -> Option<Seq<char>> {
    match j {
        Json::Str(s) => Some(s),
        _ => None,
    }
}

/// What decoding wire text yields: the frame, or the error the text
/// earns. The text must be a five-element JSON array; the topic and
/// event elements must be strings; the refs may be strings or anything
/// else, which counts as absent; the payload is taken verbatim.
pub open spec fn decode_spec(s: Seq<char>) -> Result<MessageV, WebSocketErrorV> {
    match parse_json(s) {
        Some(j) => match j {
            Json::Arr(elems) => if elems.len() != 5 {
                Err(WebSocketErrorV::InvalidMessage(s))
            } else if !(elems[2] is Str) {
                Err(WebSocketErrorV::InvalidMessage("topic is required"@))
            } else if !(elems[3] is Str) {
                Err(WebSocketErrorV::InvalidMessage("event is required"@))
            } else {
                Ok(
                    MessageV {
                        join_ref: str_opt(elems[0]),
                        message_ref: str_opt(elems[1]),
                        topic: elems[2]->Str_0,
                        event: event_of_name(elems[3]->Str_0),
                        payload: elems[4],
                    },
                )
            },
            _ => Err(WebSocketErrorV::InvalidMessage(s)),
        },
        None => Err(WebSocketErrorV::InvalidMessage(s)),
    }
}

impl Message {
    /// The wire text of this frame.
    pub fn encode(&self) -> (r: String)
        ensures
            r@ == encode_spec(self@),
    {
        let mut elems: Vec<JsonValue> = Vec::new();
        elems.push(
            match &self.join_ref {
                Some(s) => JsonValue::Str(s.clone()),
                None => JsonValue::Null,
            },
        );
        elems.push(
            match &self.message_ref {
                Some(s) => JsonValue::Str(s.clone()),
                None => JsonValue::Null,
            },
        );
        elems.push(JsonValue::Str(self.topic.0.clone()));
        elems.push(JsonValue::Str(self.event.wire_name()));
        elems.push(self.payload.0.clone());
        let arr = JsonValue::Arr(elems);
        proof {
            lemma_json_view_seq(arr->Arr_0@);
            assert(json_view_seq(arr->Arr_0@) =~= frame_json(self@)->Arr_0);
            assert(arr@ =~= frame_json(self@));
        }
        arr.to_text()
    }

    /// Decodes wire text into a frame, or the error the text earns.
    pub fn decode(s: &str) -> (r: Result<Message, WebSocketError>)
        ensures
            r is Ok <==> decode_spec(s@) is Ok,
            r is Ok ==> decode_spec(s@) == Ok::<MessageV, WebSocketErrorV>(r->Ok_0@),
            r is Err ==> decode_spec(s@) == Err::<MessageV, WebSocketErrorV>(r->Err_0@),
    {
        match JsonValue::parse_text(s) {
            None => Err(WebSocketError::InvalidMessage(s.to_owned())),
            Some(v) => {
                match v {
                    JsonValue::Arr(mut elems) => {
                        proof {
                            lemma_json_view_seq(elems@);
                        }
                        if elems.len() != 5 {
                            return Err(WebSocketError::InvalidMessage(s.to_owned()));
                        }
                        let e4 = elems.pop().unwrap();
                        let e3 = elems.pop().unwrap();
                        let e2 = elems.pop().unwrap();
                        let e1 = elems.pop().unwrap();
                        let e0 = elems.pop().unwrap();
                        let topic = match e2 {
                            JsonValue::Str(t) => Topic(t),
                            _ => {
                                return Err(
                                    WebSocketError::InvalidMessage("topic is required".to_owned()),
                                );
                            },
                        };
                        let event = match e3 {
                            JsonValue::Str(name) => Event::from_wire(name.as_str()),
                            _ => {
                                return Err(
                                    WebSocketError::InvalidMessage("event is required".to_owned()),
                                );
                            },
                        };
                        let join_ref = match e0 {
                            JsonValue::Str(r) => Some(r),
                            _ => None,
                        };
                        let message_ref = match e1 {
                            JsonValue::Str(r) => Some(r),
                            _ => None,
                        };
                        Ok(
                            Message {
                                join_ref,
                                message_ref,
                                topic,
                                event,
                                payload: Payload(e4),
                            },
                        )
                    },
                    _ => Err(WebSocketError::InvalidMessage(s.to_owned())),
                }
            },
        }
    }

    /// Copies the two refs and the topic from a reference frame, so that
    /// this frame correlates with the request that elicited it. The
    /// event and the payload stay as they are.
    pub fn merge(&mut self, other: &Message)
        ensures
            final(self)@.join_ref == other@.join_ref,
            final(self)@.message_ref == other@.message_ref,
            final(self)@.topic == other@.topic,
            final(self)@.event == old(self)@.event,
            final(self)@.payload == old(self)@.payload,
    {
        self.join_ref = clone_ref(&other.join_ref);
        self.message_ref = clone_ref(&other.message_ref);
        self.topic = other.topic.clone();
    }

    /// A fresh frame builder.
    pub fn builder() -> (r: MessageBuilder)
        ensures
            r@.join_ref is None,
            r@.message_ref is None,
            r@.topic@.len() == 0,
            r@.event is None,
            r@.payload is None,
    {
        MessageBuilder {
            join_ref: None,
            message_ref: None,
            topic: Topic(String::new()),
            event: None,
            payload: None,
        }
    }
}

/// Assembles a frame field by field. The event and the payload must be
/// given; the refs default to absent and the topic to the empty topic.
#[derive(Debug)]
pub struct MessageBuilder {
    pub join_ref: Option<String>,
    pub message_ref: Option<String>,
    pub topic: Topic,
    pub event: Option<Event>,
    pub payload: Option<Payload>,
}

/// The model of a builder's state.
pub struct MessageBuilderV {
    pub join_ref: Option<Seq<char>>,
    pub message_ref: Option<Seq<char>>,
    pub topic: Topic,
    pub event: Option<Event>,
    pub payload: Option<Payload>,
}

impl View for MessageBuilder {
    type V = MessageBuilderV;

    open spec fn view(&self) -> MessageBuilderV {
        MessageBuilderV {
            join_ref: ref_view(self.join_ref),
            message_ref: ref_view(self.message_ref),
            topic: self.topic,
            event: self.event,
            payload: self.payload,
        }
    }
}

impl MessageBuilder {
    /// Sets the join ref.
    pub fn join_ref(self, r: &str) -> (out: MessageBuilder)
        ensures
            out@ == (MessageBuilderV { join_ref: Some(r@), ..self@ }),
    {
        MessageBuilder { join_ref: Some(r.to_owned()), ..self }
    }

    /// Sets the message ref.
    pub fn message_ref(self, r: &str) -> (out: MessageBuilder)
        ensures
            out@ == (MessageBuilderV { message_ref: Some(r@), ..self@ }),
    {
        MessageBuilder { message_ref: Some(r.to_owned()), ..self }
    }

    /// Sets the topic.
    pub fn topic(self, t: Topic) -> (out: MessageBuilder)
        ensures
            out@ == (MessageBuilderV { topic: t, ..self@ }),
    {
        MessageBuilder { topic: t, ..self }
    }

    /// Sets the event from its wire name.
    pub fn event(self, name: &str) -> (out: MessageBuilder)
        ensures
            out@.event is Some,
            out@.event->Some_0@ == event_of_name(name@),
            out@.join_ref == self@.join_ref,
            out@.message_ref == self@.message_ref,
            out@.topic == self@.topic,
            out@.payload == self@.payload,
    {
        MessageBuilder { event: Some(Event::from_wire(name)), ..self }
    }

    /// Sets the payload.
    pub fn payload(self, p: Payload) -> (out: MessageBuilder)
        ensures
            out@ == (MessageBuilderV { payload: Some(p), ..self@ }),
    {
        MessageBuilder { payload: Some(p), ..self }
    }

    /// The finished frame, if the event and the payload were given.
    pub fn build(self) -> (r: Option<Message>)
        ensures
            r is Some <==> (self@.event is Some && self@.payload is Some),
            r is Some ==> r->Some_0@ == (MessageV {
                join_ref: self@.join_ref,
                message_ref: self@.message_ref,
                topic: self@.topic@,
                event: self@.event->Some_0@,
                payload: self@.payload->Some_0@,
            }),
    {
        match (self.event, self.payload) {
            (Some(event), Some(payload)) => Some(
                Message {
                    join_ref: self.join_ref,
                    message_ref: self.message_ref,
                    topic: self.topic,
                    event,
                    payload,
                },
            ),
            _ => None,
        }
    }
}

// ---------------------------------------------------------------------------
// The frame round trip
// ---------------------------------------------------------------------------

/// A frame that can survive the wire: its payload is well-formed JSON
/// and its event is not a custom event under a reserved name.
pub open spec fn wf_frame(m: MessageV) -> bool {
    &&& wf_json(m.payload)
    &&& !(m.event is Custom && reserved_name(m.event->Custom_0))
}

/// Decoding an encoded frame gives the frame back, for every frame that
/// can survive the wire.
pub proof fn lemma_frame_round_trip(m: MessageV)
    requires
        wf_frame(m),
    ensures
        decode_spec(encode_spec(m)) == Ok::<MessageV, WebSocketErrorV>(m),
{
    let fj = frame_json(m);
    let elems = fj->Arr_0;
    assert(wf_json(fj)) by {
        assert forall|i: int| 0 <= i < elems.len() implies wf_json(#[trigger] elems[i]) by {
            if i == 0 || i == 1 {
                match elems[i] {
                    Json::Str(_) => {},
                    _ => {},
                }
            }
        }
    }
    lemma_json_round_trip(fj);
    assert(parse_json(encode_spec(m)) == Some(fj));
    crate::event::lemma_event_round_trip(m.event);
    let decoded = decode_spec(encode_spec(m));
    assert(elems[2] is Str);
    assert(elems[3] is Str);
    assert(decoded is Ok);
    assert(decoded->Ok_0 =~= m);
}

} // verus!
