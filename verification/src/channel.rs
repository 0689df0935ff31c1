//! A channel: an optional join handler and a table of event handlers.
//!
//! The handler values are opaque to the library: the surrounding
//! application stores its callables here and invokes the one that a
//! dispatch step names.

use vstd::prelude::*;

verus! {

/// The handlers registered for one topic pattern. `J` and `H` are the
/// caller's join-handler and event-handler types.
pub struct Channel<J, H> {
    pub join: Option<J>,
    pub handler: Vec<(String, H)>,
}

/// The registered event names, in registration order.
pub open spec fn handler_names<H>(entries: Seq<(String, H)>) -> Seq<Seq<char>> {
    entries.map(|i: int, e: (String, H)| e.0@)
}

impl<J, H> Channel<J, H> {
    /// An empty channel: no join handler, no event handlers.
    pub fn new() -> (r: Channel<J, H>)
        ensures
            r.join is None,
            r.handler@.len() == 0,
    {
        Channel { join: None, handler: Vec::new() }
    }

    /// Registers the join handler. Without one, every join on this
    /// channel is rejected by silence: membership is not registered and
    /// no reply is sent.
    pub fn join(self, join: J) -> (r: Channel<J, H>)
        ensures
            r.join == Some(join),
            r.handler == self.handler,
    {
        Channel { join: Some(join), ..self }
    }

    /// Registers a handler for the named event. A later registration
    /// under the same name wins.
    pub fn handler(self, event: &str, handler: H) -> (r: Channel<J, H>)
        ensures
            r.join == self.join,
            r.handler@.len() == self.handler@.len() + 1,
            forall|j: int|
                0 <= j < self.handler@.len() ==> (#[trigger] r.handler@[j]) == self.handler@[j],
            r.handler@.last().0@ == event@,
            r.handler@.last().1 == handler,
            handler_names(r.handler@) == handler_names(self.handler@).push(event@),
    {
        let mut entries = self.handler;
        entries.push((event.to_owned(), handler));
        let r = Channel { join: self.join, handler: entries };
        proof {
            assert(handler_names(r.handler@) =~= handler_names(self.handler@).push(event@));
        }
        r
    }

    /// The registered handler for the named event: the index of the
    /// latest registration under that name, or nothing.
    pub fn find_handler(&self, event: &str) -> (r: Option<usize>)
        ensures
            r is Some ==> {
                let i = r->Some_0 as int;
                &&& 0 <= i < self.handler@.len()
                &&& self.handler@[i].0@ == event@
                &&& forall|j: int|
                    i < j < self.handler@.len() ==> (#[trigger] self.handler@[j]).0@ != event@
            },
            r is None ==> forall|j: int|
                0 <= j < self.handler@.len() ==> (#[trigger] self.handler@[j]).0@ != event@,
    {
        let mut i: usize = self.handler.len();
        while i > 0
            invariant
                i <= self.handler@.len(),
                forall|j: int|
                    i <= j < self.handler@.len() ==> (#[trigger] self.handler@[j]).0@ != event@,
            decreases i,
        {
            i = i - 1;
            if crate::event::str_eq(self.handler[i].0.as_str(), event) {
                return Some(i);
            }
        }
        None
    }

    /// The handler at a dispatch step's index.
    pub fn handler_at(&self, i: usize) -> (r: &H)
        requires
            i < self.handler@.len(),
        ensures
            r == &self.handler@[i as int].1,
    {
        &self.handler[i].1
    }
}

} // verus!
