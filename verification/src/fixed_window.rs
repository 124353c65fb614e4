//! Fixed window counter: a hit counter that resets every time a window
//! boundary is crossed; hard cutoff at `limit`.

use vstd::prelude::*;

use crate::lemma_non_decreasing_drop_first;
use crate::non_decreasing;
use crate::LimiterError;
use crate::RateLimiter;

verus! {

/// Counts admissions in discrete windows clocked from the instant the
/// limiter was last reset, not from calendar boundaries.
///
/// The boundary comparison is strict: an event landing exactly `window`
/// microseconds after `window_start` still counts against the old
/// window; only a strictly later event opens a new one.
#[derive(Debug)]
pub struct FixedWindow {
    /// Instant (microseconds) at which the current window opened.
    pub window_start: u64,
    /// Admissions counted in the current window.
    pub hits: u64,
    /// Window length in microseconds; always positive.
    pub window: u64,
    /// Maximum admissions per window; always positive.
    pub limit: u64,
}

impl FixedWindow {
    /// Admissions under repeated calls: the final state and the number
    /// of admitted calls after issuing `allowed` once per instant in
    /// `calls`, in order.
    pub open spec fn run(self, calls: Seq<u64>) -> (FixedWindow, nat)
        decreases calls.len(),
    {
        if calls.len() == 0 {
            (self, 0nat)
        } else {
            let (s1, b) = self.step(calls[0]);
            let (sf, n) = s1.run(calls.drop_first());
            (sf, n + (if b { 1nat } else { 0nat }))
        }
    }
}

impl RateLimiter for FixedWindow {
    open spec fn wf(&self) -> bool {
        &&& 1 <= self.window
        &&& 1 <= self.limit
        &&& self.hits <= self.limit
    }

    open spec fn clocked_at(&self) -> int {
        self.window_start as int
    }

    open spec fn init(window: u64, limit: u64, now: u64) -> Self {
        FixedWindow { window_start: now, hits: 0, window, limit }
    }

    open spec fn step(&self, now: u64) -> (Self, bool) {
        let s = if now - self.window_start > self.window {
            FixedWindow { window_start: now, hits: 0, window: self.window, limit: self.limit }
        } else {
            *self
        };
        if s.hits >= s.limit {
            (s, false)
        } else {
            (
                FixedWindow {
                    window_start: s.window_start,
                    hits: (s.hits + 1) as u64,
                    window: s.window,
                    limit: s.limit,
                },
                true,
            )
        }
    }

    fn new(window: u64, limit: u64, now: u64) -> (r: Result<Self, LimiterError>) {
        if window >= 1 && limit >= 1 {
            Ok(FixedWindow { window_start: now, hits: 0, window, limit })
        } else {
            Err(LimiterError::InvalidConfiguration)
        }
    }

    fn allowed(&mut self, now: u64) -> (r: bool) {
        if now - self.window_start > self.window {
            self.window_start = now;
            self.hits = 0;
        }
        if self.hits >= self.limit {
            return false;
        }
        self.hits = self.hits + 1;
        true
    }
}

/// Counters never go negative and never exceed the limit: for every
/// well-formed state and every call instant not before the state's
/// clock, the hit count after the step stays within `[0, limit]` and
/// the window start never moves backwards.
pub proof fn lemma_fixed_window_step_bounds(s: FixedWindow, now: u64)
    requires
        s.wf(),
        s.window_start <= now,
    ensures
        s.step(now).0.wf(),
        s.step(now).0.hits <= s.limit,
        s.window_start <= s.step(now).0.window_start <= now,
        s.step(now).0.window == s.window,
        s.step(now).0.limit == s.limit,
{
}

/// Boundary policy: an event landing exactly `window` after the start
/// still belongs to the old window, while the first strictly later
/// event opens a fresh window clocked from itself and is admitted.
pub proof fn lemma_fixed_window_boundary(s: FixedWindow, now: u64)
    requires
        s.wf(),
        s.window_start <= now,
    ensures
        now - s.window_start <= s.window ==> s.step(now).0.window_start == s.window_start,
        now - s.window_start > s.window ==> s.step(now).1 == true && s.step(now).0 == (FixedWindow {
            window_start: now,
            hits: 1,
            window: s.window,
            limit: s.limit,
        }),
{
}

/// Bursts spend the window's budget exactly: issuing `n` calls at one
/// instant inside the current window admits one call per unit of
/// remaining budget and not one more.
pub proof fn lemma_fixed_window_burst(s: FixedWindow, n: nat, now: u64)
    requires
        s.wf(),
        s.window_start <= now,
        now - s.window_start <= s.window,
    ensures
        s.run(Seq::new(n, |i: int| now)).1 == (if n <= s.limit - s.hits { n } else {
            (s.limit - s.hits) as nat
        }),
    decreases n,
{
    if n > 0 {
        let (s1, b) = s.step(now);
        assert(Seq::new(n, |i: int| now).drop_first() =~= Seq::new((n - 1) as nat, |i: int| now));
        lemma_fixed_window_burst(s1, (n - 1) as nat, now);
    }
}

/// Counters stay within `[0, limit]` under any well-ordered call
/// sequence, not only under a single step.
pub proof fn lemma_fixed_window_run_bounds(s: FixedWindow, calls: Seq<u64>)
    requires
        s.wf(),
        non_decreasing(calls),
        calls.len() > 0 ==> s.window_start <= calls[0],
    ensures
        s.run(calls).0.wf(),
        s.run(calls).0.hits <= s.limit,
    decreases calls.len(),
{
    if calls.len() > 0 {
        let (s1, b) = s.step(calls[0]);
        lemma_fixed_window_step_bounds(s, calls[0]);
        lemma_non_decreasing_drop_first(calls);
        if calls.drop_first().len() > 0 {
            assert(calls.drop_first()[0] == calls[1]);
            assert(calls[0] <= calls[1]);
        }
        lemma_fixed_window_run_bounds(s1, calls.drop_first());
    }
}

} // verus!
