//! Protocol events and their wire names.

use vstd::prelude::*;

verus! {

/// The closed set of protocol events, plus a custom variant for
/// user-defined event names.
#[derive(Debug, PartialEq, Eq, Hash)]
pub enum Event {
    Join,
    Leave,
    Close,
    Reply,
    Heartbeat,
    Custom(String),
}

/// The model of an event: the same variants over character sequences.
pub enum EventV {
    Join,
    Leave,
    Close,
    Reply,
    Heartbeat,
    Custom(Seq<char>),
}

impl View for Event {
    type V = EventV;

    open spec fn view(&self) -> EventV {
        match self {
            Event::Join => EventV::Join,
            Event::Leave => EventV::Leave,
            Event::Close => EventV::Close,
            Event::Reply => EventV::Reply,
            Event::Heartbeat => EventV::Heartbeat,
            Event::Custom(s) => EventV::Custom(s@),
        }
    }
}

impl Clone for Event {
    fn clone(&self) -> (res: Self)
        ensures
            res == *self,
    {
        match self {
            Event::Join => Event::Join,
            Event::Leave => Event::Leave,
            Event::Close => Event::Close,
            Event::Reply => Event::Reply,
            Event::Heartbeat => Event::Heartbeat,
            Event::Custom(s) => Event::Custom(s.clone()),
        }
    }
}

impl Default for Event {
    /// A reply, the most common outbound event.
    fn default() -> (r: Self)
        ensures
            r == Event::Reply,
    {
        Event::Reply
    }
}

/// The event named by an inbound wire string. `phx_close` and `close`,
/// and `phx_reply` and `reply`, are both accepted; anything unknown is a
/// custom event.
pub open spec fn event_of_name(s: Seq<char>) -> EventV {
    if s == "phx_join"@ {
        EventV::Join
    } else if s == "phx_leave"@ {
        EventV::Leave
    } else if s == "phx_close"@ || s == "close"@ {
        EventV::Close
    } else if s == "phx_reply"@ || s == "reply"@ {
        EventV::Reply
    } else if s == "heartbeat"@ {
        EventV::Heartbeat
    } else {
        EventV::Custom(s)
    }
}

/// The canonical outbound name of an event.
pub open spec fn wire_name_of(e: EventV) -> Seq<char> {
    match e {
        EventV::Join => "phx_join"@,
        EventV::Leave => "phx_leave"@,
        EventV::Close => "phx_close"@,
        EventV::Reply => "phx_reply"@,
        EventV::Heartbeat => "heartbeat"@,
        EventV::Custom(s) => s,
    }
}

/// The names that decode to a non-custom event.
pub open spec fn reserved_name(s: Seq<char>) -> bool {
    s == "phx_join"@ || s == "phx_leave"@ || s == "phx_close"@ || s == "close"@ || s
        == "phx_reply"@ || s == "reply"@ || s == "heartbeat"@
}

/// Compares two string slices by their characters.
pub fn str_eq(a: &str, b: &str) -> (r: bool)
    ensures
        r == (a@ == b@),
{
    let x = a.to_owned();
    let y = b.to_owned();
    x == y
}

impl Event {
    /// The event named by an inbound wire string.
    pub fn from_wire(s: &str) -> (r: Event)
        ensures
            r@ == event_of_name(s@),
    {
        if str_eq(s, "phx_join") {
            Event::Join
        } else if str_eq(s, "phx_leave") {
            Event::Leave
        } else if str_eq(s, "phx_close") || str_eq(s, "close") {
            Event::Close
        } else if str_eq(s, "phx_reply") || str_eq(s, "reply") {
            Event::Reply
        } else if str_eq(s, "heartbeat") {
            Event::Heartbeat
        } else {
            Event::Custom(s.to_owned())
        }
    }

    /// The canonical outbound name of this event.
    pub fn wire_name(&self) -> (r: String)
        ensures
            r@ == wire_name_of(self@),
    {
        match self {
            Event::Join => "phx_join".to_owned(),
            Event::Leave => "phx_leave".to_owned(),
            Event::Close => "phx_close".to_owned(),
            Event::Reply => "phx_reply".to_owned(),
            Event::Heartbeat => "heartbeat".to_owned(),
            Event::Custom(s) => s.clone(),
        }
    }
}

/// Decoding the canonical name of an event gives the event back, for
/// every event but a custom one whose name is itself reserved.
pub proof fn lemma_event_round_trip(e: EventV)
    requires
        !(e is Custom && reserved_name(e->Custom_0)),
    ensures
        event_of_name(wire_name_of(e)) == e,
{
    reveal_strlit("phx_join");
    reveal_strlit("phx_leave");
    reveal_strlit("phx_close");
    reveal_strlit("close");
    reveal_strlit("phx_reply");
    reveal_strlit("reply");
    reveal_strlit("heartbeat");
    match e {
        EventV::Join => {
            assert(event_of_name("phx_join"@) == EventV::Join);
        },
        EventV::Leave => {
            assert("phx_leave"@.len() == 9);
            assert("phx_join"@.len() == 8);
            assert("phx_leave"@ != "phx_join"@);
            assert(event_of_name("phx_leave"@) == EventV::Leave);
        },
        EventV::Close => {
            assert("phx_close"@[4] == 'c');
            assert("phx_leave"@[4] == 'l');
            assert("phx_close"@ != "phx_leave"@);
            assert(event_of_name("phx_close"@) == EventV::Close);
        },
        EventV::Reply => {
            assert("phx_reply"@[4] == 'r');
            assert("phx_leave"@[4] == 'l');
            assert("phx_close"@[4] == 'c');
            assert("phx_reply"@ != "phx_leave"@);
            assert("phx_reply"@ != "phx_close"@);
            assert(event_of_name("phx_reply"@) == EventV::Reply);
        },
        EventV::Heartbeat => {
            assert("heartbeat"@.len() == 9);
            assert("heartbeat"@[0] == 'h');
            assert("phx_leave"@[0] == 'p');
            assert("phx_close"@[0] == 'p');
            assert("phx_reply"@[0] == 'p');
            assert("heartbeat"@ != "phx_leave"@);
            assert("heartbeat"@ != "phx_close"@);
            assert("heartbeat"@ != "phx_reply"@);
            assert(event_of_name("heartbeat"@) == EventV::Heartbeat);
        },
        EventV::Custom(s) => {
            assert(event_of_name(s) == EventV::Custom(s));
        },
    }
}

} // verus!
