//! Minimal dependency injection: a `Thing` forwards work to whatever
//! `Doer` it was built around, so tests can substitute a recording
//! double for the real side-effecting implementation.

use vstd::prelude::*;

verus! {

/// Something that can be asked to perform one piece of work, named by
/// a string.  Implementations live with the caller; a production one
/// may print or send, a test one may record.
pub trait Doer {
    /// Perform the work described by `it`.
    fn do_it(&self, it: String);
}

/// Holds a borrowed `Doer` and forwards every request to it.
pub struct Thing<'a, T: Doer> {
    /// The collaborator every request is handed to.
    pub doer: &'a T,
}

impl<'a, T: Doer> Thing<'a, T> {
    /// Builds a `Thing` around the given collaborator.
    pub fn new(doer: &'a T) -> (r: Self)
        ensures
            r.doer == doer,
    {
        Thing { doer }
    }

    /// Hands the request straight to the collaborator.
    pub fn do_it(&self, it: String) {
        self.doer.do_it(it)
    }
}

} // verus!
