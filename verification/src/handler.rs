//! Holders for the caller-supplied hook and handler functions.
//!
//! The library never calls these values itself: the surrounding
//! application invokes them between dispatch steps. Each wrapper only
//! keeps the function it was built from.

use vstd::prelude::*;

pub mod into_response;
pub mod response;

verus! {

/// Holds a connect hook.
pub struct ConnectWrapper<F> {
    pub handler: F,
}

impl<F> ConnectWrapper<F> {
    /// Wraps a connect hook.
    pub fn new(handler: F) -> (r: Self)
        ensures
            r.handler == handler,
    {
        ConnectWrapper { handler }
    }
}

/// Holds an id hook.
pub struct IdWrapper<F> {
    pub handler: F,
}

impl<F> IdWrapper<F> {
    /// Wraps an id hook.
    pub fn new(handler: F) -> (r: Self)
        ensures
            r.handler == handler,
    {
        IdWrapper { handler }
    }
}

/// Holds a join handler.
pub struct JoinWrapper<F> {
    pub handler: F,
}

impl<F> JoinWrapper<F> {
    /// Wraps a join handler.
    pub fn new(handler: F) -> (r: Self)
        ensures
            r.handler == handler,
    {
        JoinWrapper { handler }
    }
}

/// Holds an event handler.
pub struct HandlerWrapper<F> {
    pub handler: F,
}

impl<F> HandlerWrapper<F> {
    /// Wraps an event handler.
    pub fn new(handler: F) -> (r: Self)
        ensures
            r.handler == handler,
    {
        HandlerWrapper { handler }
    }
}

} // verus!
