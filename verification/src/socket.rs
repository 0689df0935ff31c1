//! Per-connection state and the push / broadcast operations handlers
//! use.

use vstd::prelude::*;
use crate::assigns::Assigns;
use crate::event::{event_of_name, Event};
use crate::handler::into_response::IntoResponse;
use crate::handler::response::response_json;
use crate::json::{Json, JsonValue};
use crate::message::{Message, MessageV};
use crate::topic::Topic;
use crate::user_id::UserId;
use crate::websocket_state::{
    broadcast_frame, excluded_set, plan_targets, WebSocketState,
};

verus! {

/// The state of one connection: its id, the endpoint path it arrived
/// on, whether a join has succeeded, the topic joined most recently, and
/// the most recent inbound frame, whose refs outbound replies echo.
pub struct Socket {
    pub id: String,
    pub joined: bool,
    pub path: String,
    pub topic: Option<Topic>,
    pub message: Option<Message>,
    pub assigns: Assigns,
}

/// The model of the stored reference frame.
pub open spec fn msg_view(m: Option<Message>) -> Option<MessageV> {
    match m {
        Some(frame) => Some(frame@),
        None => None,
    }
}

/// The model of the current topic.
pub open spec fn topic_view(t: Option<Topic>) -> Option<Seq<char>> {
    match t {
        Some(topic) => Some(topic@),
        None => None,
    }
}

/// A frame with the refs and topic of a reference frame merged in, when
/// one is present.
pub open spec fn merged_with(m: MessageV, prev: Option<MessageV>) -> MessageV {
    match prev {
        Some(p) => MessageV {
            join_ref: p.join_ref,
            message_ref: p.message_ref,
            topic: p.topic,
            ..m
        },
        None => m,
    }
}

/// The outbound frame `push` builds before merging: no refs, the empty
/// topic, the named event, and the coerced response as payload.
pub open spec fn push_base(event: Seq<char>, payload: Json) -> MessageV {
    MessageV {
        join_ref: None,
        message_ref: None,
        topic: Seq::empty(),
        event: event_of_name(event),
        payload,
    }
}

impl Socket {
    /// A fresh socket on the given path: not joined, no topic, no
    /// reference frame, empty assigns.
    pub fn new(id: &str, path: &str) -> (r: Socket)
        ensures
            r.id@ == id@,
            r.path@ == path@,
            !r.joined,
            r.topic is None,
            r.message is None,
            r.assigns@ == Map::<(Seq<char>, u64), Json>::empty(),
    {
        Socket {
            id: id.to_owned(),
            joined: false,
            path: path.to_owned(),
            topic: None,
            message: None,
            assigns: Assigns::new(),
        }
    }

    /// Overwrites the connection id, as the id hook may do once before
    /// any registration.
    pub fn set_id(&mut self, id: &str)
        ensures
            final(self).id@ == id@,
            final(self).joined == old(self).joined,
            final(self).path == old(self).path,
            final(self).topic == old(self).topic,
            final(self).message == old(self).message,
            final(self).assigns == old(self).assigns,
    {
        self.id = id.to_owned();
    }

    /// Sets the current topic.
    pub fn set_topic(&mut self, topic: Topic)
        ensures
            final(self).topic == Some(topic),
            final(self).id == old(self).id,
            final(self).joined == old(self).joined,
            final(self).path == old(self).path,
            final(self).message == old(self).message,
            final(self).assigns == old(self).assigns,
    {
        self.topic = Some(topic);
    }

    /// Sets the joined flag.
    pub fn set_joined(&mut self, joined: bool)
        ensures
            final(self).joined == joined,
            final(self).id == old(self).id,
            final(self).path == old(self).path,
            final(self).topic == old(self).topic,
            final(self).message == old(self).message,
            final(self).assigns == old(self).assigns,
    {
        self.joined = joined;
    }

    /// Stores the most recent inbound frame.
    pub fn set_message(&mut self, message: Message)
        ensures
            final(self).message == Some(message),
            final(self).id == old(self).id,
            final(self).joined == old(self).joined,
            final(self).path == old(self).path,
            final(self).topic == old(self).topic,
            final(self).assigns == old(self).assigns,
    {
        self.message = Some(message);
    }

    /// Merges the stored refs into the frame and hands it to this
    /// connection's sender, if one is registered; a full or closed
    /// queue drops the frame rather than block. Returns the frame as
    /// built, and whether the send attempt reported success: `false`
    /// when no sender is registered, or when the queue was full or
    /// closed.
    pub fn push_message(&self, reg: &WebSocketState, message: Message) -> (r: (Message, bool))
        ensures
            r.0@ == merged_with(message@, msg_view(self.message)),
            r.1 ==> reg.sender_ids().contains(self.id@),
    {
        let mut m = message;
        match &self.message {
            Some(prev) => {
                m.merge(prev);
            },
            None => {},
        }
        let delivered = match reg.get_sender(self.id.as_str()) {
            Some(tx) => crate::external::try_send_frame(tx, m.clone()),
            None => false,
        };
        (m, delivered)
    }

    /// Coerces `data` to a response, builds a frame carrying it under
    /// the named event, merges the stored refs, and hands the frame to
    /// this connection's sender. Returns the frame as built, and
    /// whether the send attempt reported success.
    pub fn push(&self, reg: &WebSocketState, event: &str, data: Result<JsonValue, String>) -> (r: (
        Message,
        bool,
    ))
        ensures
            r.0@ == merged_with(
                push_base(event@, response_json(data.resp_spec())),
                msg_view(self.message),
            ),
            r.1 ==> reg.sender_ids().contains(self.id@),
    {
        let response = data.into_response();
        let message = Message {
            join_ref: None,
            message_ref: None,
            topic: Topic(String::new()),
            event: Event::from_wire(event),
            payload: response.to_payload(),
        };
        self.push_message(reg, message)
    }

    /// Fans `data` out to every member of this socket's current topic,
    /// this connection included, stamping the stored frame's refs and
    /// topic when one is present. A socket without a topic sends
    /// nothing; each targeted member appears once in the plan.
    pub fn broadcast(&self, reg: &WebSocketState, event: &str, data: Result<JsonValue, String>)
        -> (plan: Vec<(UserId, Message)>)
        ensures
            self.topic is None ==> plan@.len() == 0,
            self.topic is Some ==> plan_targets(plan@) == reg.members_of(
                self.path@,
                self.topic->Some_0@,
            ).intersect(reg.sender_ids()),
            forall|k: int|
                0 <= k < plan@.len() ==> (#[trigger] plan@[k]).1@ == broadcast_frame(
                    match self.topic {
                        Some(t) => t@,
                        None => Seq::empty(),
                    },
                    event@,
                    data.resp_spec(),
                    msg_view(self.message),
                ),
            forall|k: int, l: int|
                0 <= k < l < plan@.len() ==> (#[trigger] plan@[k]).0@ != (#[trigger] plan@[l]).0@,
    {
        let prev = self.message.as_ref();
        let plan = reg.do_broadcast(
            None,
            Some(&self.path),
            self.topic.as_ref(),
            event,
            data,
            prev,
        );
        proof {
            assert(crate::websocket_state::prev_view(prev) == msg_view(self.message));
            if self.topic is Some {
                assert(plan_targets(plan@) =~= reg.members_of(
                    self.path@,
                    self.topic->Some_0@,
                ).intersect(reg.sender_ids()));
            }
        }
        plan
    }

    /// Fans `data` out to every member of this socket's current topic
    /// except the named connection, stamping the stored frame's refs
    /// and topic when one is present. The excluded connection never
    /// appears in the plan; each targeted member appears once.
    pub fn broadcast_from(
        &self,
        reg: &WebSocketState,
        user_id: &str,
        event: &str,
        data: Result<JsonValue, String>,
    ) -> (plan: Vec<(UserId, Message)>)
        ensures
            self.topic is None ==> plan@.len() == 0,
            self.topic is Some ==> plan_targets(plan@) == reg.members_of(
                self.path@,
                self.topic->Some_0@,
            ).intersect(reg.sender_ids()).remove(user_id@),
            forall|k: int| 0 <= k < plan@.len() ==> (#[trigger] plan@[k]).0@ != user_id@,
            forall|k: int|
                0 <= k < plan@.len() ==> (#[trigger] plan@[k]).1@ == broadcast_frame(
                    match self.topic {
                        Some(t) => t@,
                        None => Seq::empty(),
                    },
                    event@,
                    data.resp_spec(),
                    msg_view(self.message),
                ),
            forall|k: int, l: int|
                0 <= k < l < plan@.len() ==> (#[trigger] plan@[k]).0@ != (#[trigger] plan@[l]).0@,
    {
        let excluded = UserId::from(user_id);
        let prev = self.message.as_ref();
        let plan = reg.do_broadcast(
            Some(&excluded),
            Some(&self.path),
            self.topic.as_ref(),
            event,
            data,
            prev,
        );
        proof {
            assert(crate::websocket_state::prev_view(prev) == msg_view(self.message));
            if self.topic is Some {
                assert(excluded_set(Some(&excluded)) =~= Set::<Seq<char>>::empty().insert(
                    user_id@,
                ));
                assert(plan_targets(plan@) =~= reg.members_of(
                    self.path@,
                    self.topic->Some_0@,
                ).intersect(reg.sender_ids()).remove(user_id@));
            }
        }
        plan
    }
}

} // verus!
