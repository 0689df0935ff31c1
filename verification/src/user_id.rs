//! Connection identifiers.

use vstd::prelude::*;

verus! {

/// The identifier of one connection: a generated id, or whatever the id
/// hook chose.
#[derive(Debug, PartialEq, Eq, Hash)]
pub struct UserId(pub String);

impl View for UserId {
    type V = Seq<char>;

    open spec fn view(&self) -> Seq<char> {
        self.0@
    }
}

impl Clone for UserId {
    fn clone(&self) -> (res: Self)
        ensures
            res == *self,
    {
        UserId(self.0.clone())
    }
}

impl UserId {
    /// Wraps a string as an id.
    pub fn from(s: &str) -> (r: UserId)
        ensures
            r@ == s@,
    {
        UserId(s.to_owned())
    }

    /// The id's text.
    pub fn as_str(&self) -> (r: &str)
        ensures
            r@ == self@,
    {
        self.0.as_str()
    }
}

} // verus!
