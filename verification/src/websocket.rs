//! The endpoint: its topic-pattern router, its hooks, and the
//! per-connection dispatch state machine.
//!
//! The surrounding application owns the event loop: it decodes nothing
//! and decides nothing. It feeds each inbound frame to `handle_frame`,
//! runs whatever handler the returned step names, and reports the
//! handler's result back through `complete_join` or `complete_custom`.

use vstd::prelude::*;
use crate::channel::Channel;
use crate::event::EventV;
use crate::external::{fresh_connection_id, outbound_channel};
use crate::handler::into_response::IntoResponse;
use crate::handler::response::{response_json, Response, ResponseV};
use crate::json::{Json, JsonValue};
use crate::message::{Message, MessageV};
use crate::socket::{merged_with, msg_view, Socket};
use crate::topic::{spec_is_match, Topic};
use crate::user_id::UserId;
use crate::websocket_state::WebSocketState;

verus! {

/// An endpoint: a path, a table of topic patterns with their channels,
/// and the optional connect and id hooks. `C` and `I` are the caller's
/// hook types; `J` and `H` its handler types.
pub struct WebSocket<C, I, J, H> {
    pub path: String,
    pub channels: Vec<(Topic, Channel<J, H>)>,
    pub connect: Option<C>,
    pub id: Option<I>,
}

/// What the application must do with an inbound frame after a dispatch
/// step: nothing more, or run the named handler.
pub enum Step {
    /// A reply was queued; the frame is what was delivered.
    Replied(Message),
    /// Two frames were queued, in order: a reply, then a close.
    RepliedTwo(Message, Message),
    /// Run the join handler of the channel at this index, then call
    /// `complete_join` with its result.
    RunJoin(usize),
    /// The join named a topic no pattern matches; the error reply was
    /// queued.
    RejectedJoin(Message),
    /// Run the handler at `(channel, handler)`, then call
    /// `complete_custom` with its coerced result.
    RunHandler(usize, usize),
    /// Nothing to do: an inbound reply or close, an unknown custom
    /// event, a join on a channel without a join handler, or a custom
    /// event on a topic this connection has not joined.
    Ignored,
}

/// The topics a joined-topic list holds.
pub open spec fn topic_set(ts: Seq<Topic>) -> Set<Seq<char>>
    decreases ts.len(),
{
    if ts.len() == 0 {
        Set::empty()
    } else {
        topic_set(ts.drop_last()).insert(ts.last()@)
    }
}

/// Whether the list holds the topic.
fn topics_contain(ts: &Vec<Topic>, t: &Topic) -> (r: bool)
    ensures
        r == topic_set(ts@).contains(t@),
{
    let n = ts.len();
    let mut i: usize = 0;
    proof {
        assert(ts@.take(0) =~= Seq::<Topic>::empty());
    }
    while i < n
        invariant
            n == ts@.len(),
            i <= n,
            !topic_set(ts@.take(i as int)).contains(t@),
        decreases n - i,
    {
        proof {
            assert(ts@.take(i as int + 1).drop_last() =~= ts@.take(i as int));
            assert(ts@.take(i as int + 1).last() == ts@[i as int]);
        }
        if crate::event::str_eq(ts[i].as_str(), t.as_str()) {
            proof {
                lemma_topic_set_prefix(ts@, i as int + 1, t@);
            }
            return true;
        }
        i = i + 1;
    }
    proof {
        assert(ts@.take(n as int) =~= ts@);
    }
    false
}

proof fn lemma_topic_set_prefix(ts: Seq<Topic>, k: int, t: Seq<char>)
    requires
        0 <= k <= ts.len(),
        topic_set(ts.take(k)).contains(t),
    ensures
        topic_set(ts).contains(t),
    decreases ts.len() - k,
{
    if k < ts.len() {
        assert(ts.take(k + 1).drop_last() =~= ts.take(k));
        assert(ts.take(k + 1).last() == ts[k]);
        lemma_topic_set_prefix(ts, k + 1, t);
    } else {
        assert(ts.take(k) =~= ts);
    }
}

/// Takes the topic out of the joined-topic list.
fn topics_remove(ts: &mut Vec<Topic>, t: &Topic)
    ensures
        topic_set(final(ts)@) == topic_set(old(ts)@).remove(t@),
{
    let mut kept: Vec<Topic> = Vec::new();
    proof {
        assert(topic_set(kept@) =~= Set::<Seq<char>>::empty());
    }
    while ts.len() > 0
        invariant
            topic_set(old(ts)@).remove(t@) =~= topic_set(ts@).union(topic_set(kept@)).remove(t@),
            !topic_set(kept@).contains(t@),
        decreases ts@.len(),
    {
        let ghost pre = ts@;
        let ghost pre_kept = kept@;
        proof {
            assert(topic_set(pre) == topic_set(pre.drop_last()).insert(pre.last()@));
        }
        let topic = ts.pop().unwrap();
        proof {
            assert(ts@ =~= pre.drop_last());
            assert(topic == pre.last());
        }
        if !crate::event::str_eq(topic.as_str(), t.as_str()) {
            kept.push(topic);
            proof {
                assert(kept@.drop_last() =~= pre_kept);
                assert(topic_set(kept@) == topic_set(pre_kept).insert(pre.last()@));
                assert(topic_set(old(ts)@).remove(t@) =~= topic_set(ts@).union(
                    topic_set(kept@),
                ).remove(t@));
            }
        } else {
            proof {
                assert(topic_set(old(ts)@).remove(t@) =~= topic_set(ts@).union(
                    topic_set(kept@),
                ).remove(t@));
            }
        }
    }
    proof {
        assert(topic_set(ts@) =~= Set::<Seq<char>>::empty());
    }
    *ts = kept;
    proof {
        assert(topic_set(final(ts)@) =~= topic_set(old(ts)@).remove(t@));
    }
}

/// The reply payload of a success carrying the empty object.
pub open spec fn ok_empty() -> Json {
    response_json(ResponseV::Okay(Json::Obj(Seq::empty())))
}

/// An unmerged reply frame: no refs, the empty topic, the reply event,
/// and the given payload.
pub open spec fn reply_base(payload: Json) -> MessageV {
    MessageV {
        join_ref: None,
        message_ref: None,
        topic: Seq::empty(),
        event: EventV::Reply,
        payload,
    }
}

/// A reply on the frame it answers: the frame's refs and topic, the
/// given event, and the given payload.
pub open spec fn reply_to(frame: MessageV, event: EventV, payload: Json) -> MessageV {
    MessageV {
        join_ref: frame.join_ref,
        message_ref: frame.message_ref,
        topic: frame.topic,
        event,
        payload,
    }
}

impl<C, I, J, H> WebSocket<C, I, J, H> {
    /// `ci` indexes the channel that resolves the topic: its pattern
    /// matches, and no later registration's pattern does. A second
    /// registration under an equal pattern therefore replaces the
    /// first at resolution, as a map insertion would.
    pub open spec fn resolves_at(&self, ci: int, topic: Seq<char>) -> bool {
        &&& 0 <= ci < self.channels@.len()
        &&& spec_is_match(self.channels@[ci].0@, topic)
        &&& forall|j: int|
            ci < j < self.channels@.len() ==> !spec_is_match(
                (#[trigger] self.channels@[j]).0@,
                topic,
            )
    }

    /// A custom event is routed when this connection has joined its
    /// topic and the topic's channel names a handler for it.
    pub open spec fn routes_custom(
        &self,
        joined: Seq<Topic>,
        topic: Seq<char>,
        name: Seq<char>,
    ) -> bool {
        &&& topic_set(joined).contains(topic)
        &&& exists|ci: int|
            #![trigger self.channels@[ci]]
            self.resolves_at(ci, topic) && exists|hi: int|
                0 <= hi < self.channels@[ci].1.handler@.len() && (
                #[trigger] self.channels@[ci].1.handler@[hi]).0@ == name
    }

    /// A fresh endpoint on the given path, with no channels and no
    /// hooks.
    pub fn new(path: &str) -> (r: WebSocket<C, I, J, H>)
        ensures
            r.path@ == path@,
            r.channels@.len() == 0,
            r.connect is None,
            r.id is None,
    {
        WebSocket { path: path.to_owned(), channels: Vec::new(), connect: None, id: None }
    }

    /// Registers a channel under a topic pattern. A later registration
    /// under an equal pattern wins at resolution, replacing the
    /// earlier channel.
    pub fn channel(self, topic: Topic, channel: Channel<J, H>) -> (r: WebSocket<C, I, J, H>)
        ensures
            r.path == self.path,
            r.connect == self.connect,
            r.id == self.id,
            r.channels@.len() == self.channels@.len() + 1,
            forall|j: int|
                0 <= j < self.channels@.len() ==> (#[trigger] r.channels@[j])
                    == self.channels@[j],
            r.channels@.last().0 == topic,
            r.channels@.last().1 == channel,
    {
        let mut channels = self.channels;
        channels.push((topic, channel));
        WebSocket { path: self.path, channels, connect: self.connect, id: self.id }
    }

    /// Registers the connect hook.
    pub fn connect(self, hook: C) -> (r: WebSocket<C, I, J, H>)
        ensures
            r.connect == Some(hook),
            r.path == self.path,
            r.channels == self.channels,
            r.id == self.id,
    {
        WebSocket { connect: Some(hook), ..self }
    }

    /// Registers the id hook.
    pub fn id(self, hook: I) -> (r: WebSocket<C, I, J, H>)
        ensures
            r.id == Some(hook),
            r.path == self.path,
            r.channels == self.channels,
            r.connect == self.connect,
    {
        WebSocket { id: Some(hook), ..self }
    }

    /// The channel that resolves the topic: the latest registration
    /// whose pattern matches, so re-registering a pattern replaces the
    /// earlier channel. Distinct overlapping patterns are the caller's
    /// affair; the latest matching one wins.
    pub fn find_channel(&self, topic: &Topic) -> (r: Option<usize>)
        ensures
            r is Some ==> self.resolves_at(r->Some_0 as int, topic@),
            r is None ==> forall|j: int|
                0 <= j < self.channels@.len() ==> !spec_is_match(
                    (#[trigger] self.channels@[j]).0@,
                    topic@,
                ),
    {
        let mut i: usize = self.channels.len();
        while i > 0
            invariant
                i <= self.channels@.len(),
                forall|j: int|
                    i <= j < self.channels@.len() ==> !spec_is_match(
                        (#[trigger] self.channels@[j]).0@,
                        topic@,
                    ),
            decreases i,
        {
            i = i - 1;
            if self.channels[i].0.is_match(topic) {
                return Some(i);
            }
        }
        None
    }

    /// The channel at a dispatch step's index.
    pub fn channel_at(&self, i: usize) -> (r: &Channel<J, H>)
        requires
            i < self.channels@.len(),
        ensures
            r == &self.channels@[i as int].1,
    {
        &self.channels[i].1
    }

    /// Routes one inbound frame.
    ///
    /// A heartbeat is answered at once. A leave is answered with a
    /// reply and a close, in that order, and the membership row goes. A
    /// join is routed to its channel's join handler, or answered with an
    /// error reply when no pattern matches. A join whose channel has no
    /// join handler is rejected by silence — deliberately: membership is
    /// not registered and no reply is sent, since the protocol names no
    /// reply payload for that case. A custom event is routed to its
    /// handler when this connection has joined the frame's topic and the
    /// handler exists; otherwise it is dropped. Inbound replies and
    /// closes are ignored.
    pub fn handle_frame(
        &self,
        reg: &mut WebSocketState,
        sock: &mut Socket,
        joined: &mut Vec<Topic>,
        frame: Message,
    ) -> (step: Step)
        ensures
            frame@.event is Heartbeat ==> (step matches Step::Replied(m) && m@ == reply_to(
                frame@,
                EventV::Heartbeat,
                ok_empty(),
            )),
            frame@.event is Heartbeat ==> final(reg).member_rows() == old(reg).member_rows(),
            frame@.event is Leave ==> (step matches Step::RepliedTwo(m, c) && m@ == reply_to(
                frame@,
                EventV::Reply,
                ok_empty(),
            ) && c@ == reply_to(frame@, EventV::Close, Json::Null)),
            frame@.event is Leave ==> final(reg).members_of(old(sock).path@, frame@.topic) == old(reg).members_of(old(sock).path@, frame@.topic).remove(old(sock).id@),
            frame@.event is Leave ==> forall|p: Seq<char>, t: Seq<char>|
                !(p == old(sock).path@ && t == frame@.topic) ==> final(reg).members_of(p, t)
                    == old(reg).members_of(p, t),
            frame@.event is Leave ==> topic_set(final(joined)@) == topic_set(
                old(joined)@,
            ).remove(frame@.topic),
            frame@.event is Join ==> *final(reg) == *old(reg) && *final(joined) == *old(joined),
            frame@.event is Join ==> match step {
                Step::RunJoin(i) => self.resolves_at(i as int, frame@.topic)
                    && self.channels@[i as int].1.join is Some,
                Step::RejectedJoin(m) => {
                    &&& forall|j: int|
                        0 <= j < self.channels@.len() ==> !spec_is_match(
                            (#[trigger] self.channels@[j]).0@,
                            frame@.topic,
                        )
                    &&& m@ == reply_to(
                        frame@,
                        EventV::Reply,
                        response_json(ResponseV::Error(Json::Str("unmatched topic"@))),
                    )
                },
                Step::Ignored => exists|i: int|
                    #![trigger self.channels@[i]]
                    self.resolves_at(i, frame@.topic) && self.channels@[i].1.join is None,
                _ => false,
            },
            frame@.event is Custom ==> *final(reg) == *old(reg) && *final(joined) == *old(joined),
            frame@.event is Custom ==> match step {
                Step::RunHandler(ci, hi) => {
                    &&& topic_set(old(joined)@).contains(frame@.topic)
                    &&& self.resolves_at(ci as int, frame@.topic)
                    &&& hi < self.channels@[ci as int].1.handler@.len()
                    &&& self.channels@[ci as int].1.handler@[hi as int].0@
                        == frame@.event->Custom_0
                },
                Step::Ignored => !self.routes_custom(
                    old(joined)@,
                    frame@.topic,
                    frame@.event->Custom_0,
                ),
                _ => false,
            },
            frame@.event is Custom && step is RunHandler ==> msg_view(final(sock).message)
                == Some(frame@),
            frame@.event is Custom && step is Ignored ==> final(sock).message == old(sock).message,
            (frame@.event is Reply || frame@.event is Close) ==> step is Ignored && *final(reg)
                == *old(reg) && *final(sock) == *old(sock) && *final(joined) == *old(joined),
            frame@.event is Heartbeat || frame@.event is Leave || frame@.event is Join ==> msg_view(
                final(sock).message,
            ) == Some(frame@),
            final(sock).id == old(sock).id && final(sock).path == old(sock).path && final(sock).joined == old(sock).joined && final(sock).topic == old(sock).topic && final(sock).assigns == old(sock).assigns,
            final(reg).sender_ids() == old(reg).sender_ids() && final(reg).paths() == old(reg).paths(),
    {
        match &frame.event {
            crate::event::Event::Heartbeat => {
                let reply = Message {
                    join_ref: None,
                    message_ref: None,
                    topic: Topic(String::new()),
                    event: crate::event::Event::Heartbeat,
                    payload: Response::Okay(JsonValue::empty_object()).to_payload(),
                };
                sock.set_message(frame);
                let (sent, _) = sock.push_message(reg, reply);
                Step::Replied(sent)
            },
            crate::event::Event::Leave => {
                let topic = frame.topic.clone();
                sock.set_message(frame);
                let reply = Message {
                    join_ref: None,
                    message_ref: None,
                    topic: Topic(String::new()),
                    event: crate::event::Event::Reply,
                    payload: Response::Okay(JsonValue::empty_object()).to_payload(),
                };
                let (sent_reply, _) = sock.push_message(reg, reply);
                let entry = UserId(sock.id.clone());
                reg.remove_user(&(sock.path.clone(), topic.clone()), &entry);
                topics_remove(joined, &topic);
                let close = Message {
                    join_ref: None,
                    message_ref: None,
                    topic: Topic(String::new()),
                    event: crate::event::Event::Close,
                    payload: Response::NoReply.to_payload(),
                };
                let (sent_close, _) = sock.push_message(reg, close);
                Step::RepliedTwo(sent_reply, sent_close)
            },
            crate::event::Event::Join => {
                let topic = frame.topic.clone();
                sock.set_message(frame);
                match self.find_channel(&topic) {
                    Some(i) => {
                        if self.channels[i].1.join.is_some() {
                            Step::RunJoin(i)
                        } else {
                            Step::Ignored
                        }
                    },
                    None => {
                        let reply = Message {
                            join_ref: None,
                            message_ref: None,
                            topic: Topic(String::new()),
                            event: crate::event::Event::Reply,
                            payload: Response::Error(
                                JsonValue::Str("unmatched topic".to_owned()),
                            ).to_payload(),
                        };
                        let (sent, _) = sock.push_message(reg, reply);
                        Step::RejectedJoin(sent)
                    },
                }
            },
            crate::event::Event::Custom(name) => {
                if !topics_contain(joined, &frame.topic) {
                    return Step::Ignored;
                }
                let event_name = name.clone();
                let topic = frame.topic.clone();
                match self.find_channel(&topic) {
                    Some(ci) => {
                        match self.channels[ci].1.find_handler(event_name.as_str()) {
                            Some(hi) => {
                                sock.set_message(frame);
                                Step::RunHandler(ci, hi)
                            },
                            None => Step::Ignored,
                        }
                    },
                    None => Step::Ignored,
                }
            },
            _ => Step::Ignored,
        }
    }
}

/// Finishes a join after the application ran the join handler. On
/// success the connection becomes a member of the topic and the socket
/// records it; on failure nothing is registered. Either way the reply
/// frame, carrying the coerced result and the stored refs, is queued and
/// returned.
pub fn complete_join(
    reg: &mut WebSocketState,
    sock: &mut Socket,
    joined: &mut Vec<Topic>,
    topic: Topic,
    result: Result<JsonValue, String>,
) -> (r: Message)
    ensures
        r@ == merged_with(reply_base(response_json(result.resp_spec())), msg_view(old(sock).message)),
        result is Ok ==> final(reg).members_of(old(sock).path@, topic@) == old(reg).members_of(
            old(sock).path@,
            topic@,
        ).insert(old(sock).id@),
        result is Ok ==> forall|p: Seq<char>, t: Seq<char>|
            !(p == old(sock).path@ && t == topic@) ==> final(reg).members_of(p, t) == old(reg).members_of(p, t),
        result is Ok ==> final(sock).joined && final(sock).topic == Some(topic) && topic_set(
            final(joined)@,
        ) == topic_set(old(joined)@).insert(topic@),
        result is Err ==> *final(reg) == *old(reg) && *final(sock) == *old(sock) && *final(joined)
            == *old(joined),
        final(reg).sender_ids() == old(reg).sender_ids() && final(reg).paths() == old(reg).paths(),
        final(sock).id == old(sock).id && final(sock).path == old(sock).path && final(sock).message == old(sock).message && final(sock).assigns == old(sock).assigns,
{
    let ok = result.is_ok();
    let response = result.into_response();
    let reply = Message {
        join_ref: None,
        message_ref: None,
        topic: Topic(String::new()),
        event: crate::event::Event::Reply,
        payload: response.to_payload(),
    };
    if ok {
        reg.insert_user((sock.path.clone(), topic.clone()), UserId(sock.id.clone()));
        sock.set_joined(true);
        let ghost pre = joined@;
        joined.push(topic.clone());
        proof {
            assert(joined@.drop_last() =~= pre);
        }
        sock.set_topic(topic);
    }
    sock.push_message(reg, reply).0
}

/// Finishes a custom event after the application ran its handler. A
/// handler that asks for no reply sends nothing; any other response is
/// queued as a reply carrying the stored refs, and returned.
pub fn complete_custom(reg: &WebSocketState, sock: &Socket, response: Response) -> (r: Option<
    Message,
>)
    ensures
        response@ is NoReply <==> r is None,
        r is Some ==> r->Some_0@ == merged_with(reply_base(response_json(response@)), msg_view(sock.message)),
{
    match response {
        Response::NoReply => None,
        resp => {
            let reply = Message {
                join_ref: None,
                message_ref: None,
                topic: Topic(String::new()),
                event: crate::event::Event::Reply,
                payload: resp.to_payload(),
            };
            Some(sock.push_message(reg, reply).0)
        },
    }
}

/// Opens a connection: generates a fresh 21-character id, builds its
/// socket, and registers a bounded outbound channel under the id. The
/// receiving half is handed back for the caller's writer task.
pub fn open_connection(reg: &mut WebSocketState, path: &str) -> (r: (
    Socket,
    tokio::sync::mpsc::Receiver<Message>,
))
    ensures
        r.0.id@.len() == 21,
        r.0.path@ == path@,
        !r.0.joined,
        r.0.topic is None,
        r.0.message is None,
        final(reg).sender_ids() == old(reg).sender_ids().insert(r.0.id@),
        final(reg).paths() == old(reg).paths(),
        final(reg).member_rows() == old(reg).member_rows(),
{
    let id = fresh_connection_id();
    let sock = Socket::new(id.as_str(), path);
    let (tx, rx) = outbound_channel::<Message>();
    reg.insert_sender(id.as_str(), tx);
    (sock, rx)
}

} // verus!
