//! Local, single-owner admission control.
//!
//! Three interchangeable rate-limiting strategies decide, call by call,
//! whether an event may proceed under a configured `(window, limit)`
//! budget: a fixed window counter, a sliding window with linear
//! interpolation, and a token bucket.  All instants and durations are
//! monotonic microsecond counts supplied by the caller, so the
//! algorithms are deterministic and fully specified.
//!
//! Instances are not internally synchronized: each limiter assumes a
//! single logical owner that issues `allowed` calls serially with
//! non-decreasing instants.  Callers that need per-key limiting behind
//! concurrent traffic must shard or guard instances externally.
//!
//! Two small independent utilities live alongside the limiters: a k-way
//! merge over ordered sequences and a minimal dependency-injection
//! example.

use vstd::prelude::*;

pub mod doer;
pub mod fixed_window;
pub mod merge;
pub mod moving_window;
pub mod token_bucket;

verus! {

/// Why a limiter could not be constructed.
#[derive(Clone, Copy, Debug, PartialEq, Eq, Structural)]
pub enum LimiterError {
    /// The window was zero or the limit was zero; both would divide by
    /// zero in the rate and interpolation arithmetic.
    InvalidConfiguration,
}

/// The shared admission-control capability.
///
/// A limiter is a self-contained state machine clocked by instants the
/// caller supplies (microseconds on a monotonic clock).  `new` builds
/// the initial state, `allowed` decides one admission and advances the
/// state; neither does any I/O.
pub trait RateLimiter: Sized {
    /// Well-formedness: configuration is non-degenerate and every
    /// internal counter is within its bounds.
    spec fn wf(&self) -> bool;

    /// The latest instant recorded in the state; `allowed` must be
    /// called with instants no earlier than this.
    spec fn clocked_at(&self) -> int;

    /// The state a freshly constructed limiter starts in.
    spec fn init(window: u64, limit: u64, now: u64) -> Self;

    /// The successor state and admission decision for a call arriving
    /// at `now`.
    spec fn step(&self, now: u64) -> (Self, bool);

    /// Construct a limiter over a budget of `limit` admissions per
    /// `window` microseconds, clocked from the instant `now`.
    /// Degenerate configurations are rejected.
    fn new(window: u64, limit: u64, now: u64) -> (r: Result<Self, LimiterError>)
        ensures
            r == (if 1 <= window && 1 <= limit {
                Result::<Self, LimiterError>::Ok(Self::init(window, limit, now))
            } else {
                Result::<Self, LimiterError>::Err(LimiterError::InvalidConfiguration)
            }),
            r matches Ok(l) ==> l.wf() && l.clocked_at() == now,
    ;

    /// Decide admission for the event arriving at `now` and update the
    /// state.  Never fails: every call terminates with a boolean.
    fn allowed(&mut self, now: u64) -> (r: bool)
        requires
            old(self).wf(),
            old(self).clocked_at() <= now,
        ensures
            final(self).wf(),
            old(self).clocked_at() <= final(self).clocked_at() <= now,
            (*final(self), r) == old(self).step(now),
    ;
}

/// Call instants that never move backwards, as a monotonic clock
/// supplies them.
pub open spec fn non_decreasing(calls: Seq<u64>) -> bool {
    forall|i: int, j: int| 0 <= i <= j < calls.len() ==> calls[i] <= calls[j]
}

/// A suffix of a non-decreasing call sequence is itself non-decreasing.
pub proof fn lemma_non_decreasing_drop_first(calls: Seq<u64>)
    requires
        calls.len() > 0,
        non_decreasing(calls),
    ensures
        non_decreasing(calls.drop_first()),
{
    assert forall|i: int, j: int|
        0 <= i <= j < calls.drop_first().len() implies calls.drop_first()[i]
        <= calls.drop_first()[j] by {
        assert(calls[i + 1] <= calls[j + 1]);
    }
}

} // verus!
