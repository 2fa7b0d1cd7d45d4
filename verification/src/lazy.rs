//! Deferred, at-most-once initialization of an expensive or
//! possibly-unavailable handle.
//!
//! The resource moves from `NotYetAttempted` to either `Ready` or
//! `Unavailable` exactly once; after that every call short-circuits and
//! observes the same outcome, so a failing or costly initializer is never
//! run a second time within the resource's lifetime. A caller that wraps
//! the resource in an exclusive lock therefore gets at-most-once execution
//! of the initializer under any number of concurrent callers.

use vstd::prelude::*;

verus! {

/// Initialization state of a lazily-acquired handle.
pub enum LazyState<T> {
    /// Initialization has not been tried yet.
    NotYetAttempted,
    /// Initialization succeeded; the shared handle is held here.
    Ready(T),
    /// Initialization failed; it will not be retried.
    Unavailable,
}

/// A handle that is initialized at most once.
pub struct LazyResource<T> {
    state: LazyState<T>,
}

impl<T> LazyResource<T> {
    /// The current initialization state.
    pub closed spec fn state(&self) -> LazyState<T> {
        self.state
    }

    /// A resource whose initialization has not been attempted.
    pub fn new() -> (r: LazyResource<T>)
        ensures
            r.state() is NotYetAttempted,
    {
        LazyResource { state: LazyState::NotYetAttempted }
    }

    /// Whether initialization has been attempted, successfully or not.
    pub fn attempted(&self) -> (r: bool)
        ensures
            r <==> !(self.state() is NotYetAttempted),
    {
        !matches!(self.state, LazyState::NotYetAttempted)
    }

    /// The handle, if initialization has succeeded; never initializes.
    pub fn peek(&self) -> (r: Option<&T>)
        ensures
            match r {
                Some(v) => self.state() matches LazyState::Ready(t) && *v == t,
                None => !(self.state() matches LazyState::Ready(_)),
            },
    {
        match &self.state {
            LazyState::Ready(t) => Some(t),
            _ => None,
        }
    }

    /// Run `init` only if initialization was never attempted; record its
    /// outcome permanently. Every later call observes that same outcome
    /// without running `init` again — including permanent unavailability.
    pub fn get_or_init<F: FnOnce() -> Option<T>>(&mut self, init: F) -> (r: Option<&T>)
        requires
            call_requires(init, ()),
        ensures
            !(final(self).state() is NotYetAttempted),
            !(old(self).state() is NotYetAttempted) ==> final(self).state() == old(self).state(),
            old(self).state() is NotYetAttempted ==> match final(self).state() {
                LazyState::Ready(t) => call_ensures(init, (), Some(t)),
                LazyState::Unavailable => call_ensures(init, (), None::<T>),
                LazyState::NotYetAttempted => false,
            },
            match r {
                Some(v) => final(self).state() matches LazyState::Ready(t) && *v == t,
                None => final(self).state() is Unavailable,
            },
    {
        if matches!(self.state, LazyState::NotYetAttempted) {
            let outcome = init();
            self.state = match outcome {
                Some(t) => LazyState::Ready(t),
                None => LazyState::Unavailable,
            };
        }
        match &self.state {
            LazyState::Ready(t) => Some(t),
            _ => None,
        }
    }
}

} // verus!
