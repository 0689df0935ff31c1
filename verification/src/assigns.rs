//! Per-connection key/value storage for handlers.

use vstd::prelude::*;
use crate::json::{Json, JsonValue};

verus! {

/// A per-connection store for handler data. An entry is identified by
/// its name together with a caller-chosen type tag, so entries of
/// different kinds may share a name; inserting under an existing name
/// and tag replaces the entry.
#[derive(Debug)]
pub struct Assigns {
    entries: Vec<((String, u64), JsonValue)>,
}

impl View for Assigns {
    type V = Map<(Seq<char>, u64), Json>;

    closed spec fn view(&self) -> Map<(Seq<char>, u64), Json> {
        assigns_map(self.entries@)
    }
}

/// The map an entry list stands for; later entries win.
pub closed spec fn assigns_map(entries: Seq<((String, u64), JsonValue)>) -> Map<
    (Seq<char>, u64),
    Json,
>
    decreases entries.len(),
{
    if entries.len() == 0 {
        Map::empty()
    } else {
        let last = entries.last();
        assigns_map(entries.drop_last()).insert((last.0.0@, last.0.1), last.1@)
    }
}

impl Assigns {
    /// An empty store.
    pub fn new() -> (r: Assigns)
        ensures
            r@ == Map::<(Seq<char>, u64), Json>::empty(),
    {
        Assigns { entries: Vec::new() }
    }

    /// Stores `value` under the name and tag, replacing any entry they
    /// already identify.
    pub fn insert(&mut self, key: &str, tag: u64, value: JsonValue)
        ensures
            final(self)@ == old(self)@.insert((key@, tag), value@),
    {
        self.entries.push(((key.to_owned(), tag), value));
        proof {
            assert(self.entries@.drop_last() =~= old(self).entries@);
        }
    }

    /// The value stored under the name and tag, if any.
    pub fn get(&self, key: &str, tag: u64) -> (r: Option<&JsonValue>)
        ensures
            r is Some <==> self@.contains_key((key@, tag)),
            r is Some ==> r->Some_0@ == self@[(key@, tag)],
    {
        let n = self.entries.len();
        let mut i: usize = n;
        proof {
            assert(self.entries@.take(n as int) =~= self.entries@);
        }
        while i > 0
            invariant
                i <= self.entries@.len(),
                assigns_map(self.entries@).contains_key((key@, tag)) == assigns_map(
                    self.entries@.take(i as int),
                ).contains_key((key@, tag)),
                assigns_map(self.entries@).contains_key((key@, tag)) ==> assigns_map(
                    self.entries@,
                )[(key@, tag)] == assigns_map(self.entries@.take(i as int))[(key@, tag)],
            decreases i,
        {
            i = i - 1;
            let entry = &self.entries[i];
            proof {
                assert(self.entries@.take(i as int + 1).drop_last() =~= self.entries@.take(
                    i as int,
                ));
                assert(self.entries@.take(i as int + 1).last() == self.entries@[i as int]);
            }
            if crate::event::str_eq(entry.0.0.as_str(), key) && entry.0.1 == tag {
                return Some(&self.entries[i].1);
            }
        }
        proof {
            assert(self.entries@.take(0) =~= Seq::<((String, u64), JsonValue)>::empty());
        }
        None
    }
}

impl Default for Assigns {
    /// An empty store.
    fn default() -> (r: Self)
        ensures
            r@ == Map::<(Seq<char>, u64), Json>::empty(),
    {
        Assigns { entries: Vec::new() }
    }
}

} // verus!
