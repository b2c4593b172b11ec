//! One-time initialization.

use vstd::prelude::*;

verus! {

/// The token of a one-time initialization: whether the function that it
/// guards has run.
#[derive(Debug)]
pub struct Once {
    done: bool,
}

impl Once {
    /// Whether the guarded function has run.
    pub closed spec fn completed(self) -> bool {
        self.done
    }

    /// Creates a token whose function has not run.
    pub fn new() -> (once: Self)
        ensures
            !once.completed(),
    {
        Once { done: false }
    }

    /// Whether the guarded function has run.
    pub fn is_completed(&self) -> (done: bool)
        ensures
            done == self.completed(),
    {
        self.done
    }

    /// Runs `function` if no function has run under this token, and
    /// returns what it returned.  Under a token whose function has run,
    /// nothing is run and nothing returned.
    pub fn call_once<F, T>(&mut self, function: F) -> (result: Option<T>) where F: FnOnce() -> T
        requires
            !old(self).completed() ==> call_requires(function, ()),
        ensures
            final(self).completed(),
            result is Some <==> !old(self).completed(),
            result matches Some(value) ==> call_ensures(function, (), value),
    {
        if self.done {
            None
        } else {
            self.done = true;
            Some(function())
        }
    }
}

} // verus!
