//! Sliding window with interpolation: two adjacent fixed buckets and a
//! linearly weighted estimate of the trailing window's hits.

use vstd::prelude::*;

use crate::lemma_non_decreasing_drop_first;
use crate::non_decreasing;
use crate::LimiterError;
use crate::RateLimiter;

verus! {

/// Approximates a rolling window without per-event timestamps.
///
/// Two adjacent fixed buckets are kept: the previous window's count and
/// the current one's.  An admission decision weighs the previous count
/// by how much of the trailing window still overlaps it, using integer
/// (floor) arithmetic on microsecond magnitudes.  After an idle gap of
/// more than two windows both buckets decay to empty in one step.
#[derive(Debug)]
pub struct MovingWindow {
    /// Instant (microseconds) at which the previous window opened.
    pub prev_start: u64,
    /// Admissions counted in the previous window.
    pub prev_count: u64,
    /// Instant (microseconds) at which the current window opened.
    pub this_start: u64,
    /// Admissions counted in the current window.
    pub this_count: u64,
    /// Window length in microseconds; always positive.
    pub window: u64,
    /// Maximum estimated admissions per trailing window; always positive.
    pub limit: u64,
}

impl MovingWindow {
    /// How many whole windows the current bucket must advance so that
    /// `now` falls within it; zero when `now` is at most one window
    /// past `this_start`.
    pub open spec fn shifts(&self, now: u64) -> int {
        let d = now - self.this_start;
        if d <= self.window {
            0
        } else {
            (d - 1) / (self.window as int)
        }
    }

    /// The state after the window buckets have been advanced to cover
    /// `now`: one shift moves the current count into the previous slot,
    /// two or more forget all history.
    pub open spec fn caught_up(&self, now: u64) -> MovingWindow {
        let k = self.shifts(now);
        if k == 0 {
            *self
        } else {
            MovingWindow {
                prev_start: (self.this_start + (k - 1) * self.window) as u64,
                prev_count: (if k == 1 { self.this_count } else { 0 }),
                this_start: (self.this_start + k * self.window) as u64,
                this_count: 0,
                window: self.window,
                limit: self.limit,
            }
        }
    }

    /// Hits carried over from the previous window: its count weighted
    /// by the part of the trailing window that still overlaps it,
    /// rounded down.
    pub open spec fn carried(&self, now: u64) -> int {
        (self.prev_count * (self.window - (now - self.this_start))) / (self.window as int)
    }

    /// Admissions under repeated calls: the final state and the number
    /// of admitted calls after issuing `allowed` once per instant in
    /// `calls`, in order.
    pub open spec fn run(self, calls: Seq<u64>) -> (MovingWindow, nat)
        decreases calls.len(),
    {
        if calls.len() == 0 {
            (self, 0nat)
        } else {
            let (s1, b) = self.step(calls[0]);
            let (sf, n) = s1.run(calls.drop_first());
            (sf, n + (if b { 1nat } else { 0nat }))
        }
    }
}

impl RateLimiter for MovingWindow {
    open spec fn wf(&self) -> bool {
        &&& 1 <= self.window
        &&& 1 <= self.limit
        &&& self.prev_count <= self.limit
        &&& self.this_count <= self.limit
        &&& self.prev_start <= self.this_start
        &&& (self.this_start == self.prev_start || self.this_start - self.prev_start
            == self.window)
    }

    open spec fn clocked_at(&self) -> int {
        self.this_start as int
    }

    open spec fn init(window: u64, limit: u64, now: u64) -> Self {
        MovingWindow {
            prev_start: now,
            prev_count: 0,
            this_start: now,
            this_count: 0,
            window,
            limit,
        }
    }

    open spec fn step(&self, now: u64) -> (Self, bool) {
        let c = self.caught_up(now);
        if c.this_count + c.carried(now) >= c.limit {
            (c, false)
        } else {
            (
                MovingWindow {
                    prev_start: c.prev_start,
                    prev_count: c.prev_count,
                    this_start: c.this_start,
                    this_count: (c.this_count + 1) as u64,
                    window: c.window,
                    limit: c.limit,
                },
                true,
            )
        }
    }

    fn new(window: u64, limit: u64, now: u64) -> (r: Result<Self, LimiterError>) {
        if window >= 1 && limit >= 1 {
            Ok(
                MovingWindow {
                    prev_start: now,
                    prev_count: 0,
                    this_start: now,
                    this_count: 0,
                    window,
                    limit,
                },
            )
        } else {
            Err(LimiterError::InvalidConfiguration)
        }
    }

    fn allowed(&mut self, now: u64) -> (r: bool) {
        let ghost pre = *self;
        if now - self.this_start > self.window {
            let d = now - self.this_start;
            let k = (d - 1) / self.window;
            proof {
                vstd::arithmetic::div_mod::lemma_fundamental_div_mod(d - 1, self.window as int);
                vstd::arithmetic::div_mod::lemma_mod_bound(d - 1, self.window as int);
                assert(k >= 1) by (nonlinear_arith)
                    requires
                        k == (d - 1) as int / self.window as int,
                        (d - 1) >= self.window >= 1,
                ;
                assert(k * self.window <= d - 1);
                assert(k * self.window >= d - self.window);
                assert(self.window <= k * self.window) by (nonlinear_arith)
                    requires
                        k >= 1,
                        self.window >= 1,
                ;
            }
            let adv = k * self.window;
            self.prev_start = self.this_start + (adv - self.window);
            self.prev_count = if k == 1 {
                self.this_count
            } else {
                0
            };
            self.this_start = self.this_start + adv;
            self.this_count = 0;
            proof {
                assert(pre.shifts(now) == k);
                assert((k - 1) * pre.window == k * pre.window - pre.window) by (nonlinear_arith);
                assert(*self == pre.caught_up(now));
            }
        }
        let elapsed = now - self.this_start;
        let rem = self.window - elapsed;
        proof {
            assert((self.prev_count as int) * (rem as int) <= u128::MAX) by (nonlinear_arith)
                requires
                    self.prev_count <= u64::MAX,
                    rem <= u64::MAX,
            ;
            assert((self.prev_count as int) * (rem as int) <= (self.prev_count as int) * (
            self.window as int)) by (nonlinear_arith)
                requires
                    0 <= rem <= self.window,
                    0 <= self.prev_count,
            ;
            vstd::arithmetic::div_mod::lemma_div_is_ordered(
                (self.prev_count as int) * (rem as int),
                (self.prev_count as int) * (self.window as int),
                self.window as int,
            );
            vstd::arithmetic::div_mod::lemma_div_multiples_vanish(
                self.prev_count as int,
                self.window as int,
            );
            vstd::arithmetic::div_mod::lemma_div_pos_is_pos(
                (self.prev_count as int) * (rem as int),
                self.window as int,
            );
            assert((self.prev_count as int) * (rem as int) >= 0) by (nonlinear_arith)
                requires
                    0 <= rem,
                    0 <= self.prev_count,
            ;
        }
        let carry = ((self.prev_count as u128) * (rem as u128) / (self.window as u128)) as u64;
        if (self.this_count as u128) + (carry as u128) >= (self.limit as u128) {
            return false;
        }
        self.this_count = self.this_count + 1;
        true
    }
}

/// Counters never go negative and never exceed the limit: every step
/// from a well-formed state, at an instant not before the state's
/// clock, keeps both bucket counts within `[0, limit]` and never moves
/// the current window's start backwards.
pub proof fn lemma_moving_window_step_bounds(s: MovingWindow, now: u64)
    requires
        s.wf(),
        s.this_start <= now,
    ensures
        s.step(now).0.wf(),
        s.step(now).0.prev_count <= s.limit,
        s.step(now).0.this_count <= s.limit,
        s.this_start <= s.step(now).0.this_start <= now,
        s.step(now).0.window == s.window,
        s.step(now).0.limit == s.limit,
{
    let d = now - s.this_start;
    let w = s.window as int;
    let c = s.caught_up(now);
    if d > w {
        let k = (d - 1) / w;
        vstd::arithmetic::div_mod::lemma_fundamental_div_mod(d - 1, w);
        vstd::arithmetic::div_mod::lemma_mod_bound(d - 1, w);
        assert(k >= 1) by (nonlinear_arith)
            requires
                k == (d - 1) / w,
                d - 1 >= w >= 1,
        ;
        assert(k * w <= d - 1);
        assert(k * w >= d - w);
        assert((k - 1) * w == k * w - w) by (nonlinear_arith);
        assert(w <= k * w) by (nonlinear_arith)
            requires
                k >= 1,
                w >= 1,
        ;
    }
    let rem = w - (now - c.this_start);
    assert(0 <= c.prev_count * rem) by (nonlinear_arith)
        requires
            0 <= rem,
            0 <= c.prev_count,
    ;
    assert(c.prev_count * rem <= c.prev_count * w) by (nonlinear_arith)
        requires
            rem <= w,
            0 <= c.prev_count,
    ;
    vstd::arithmetic::div_mod::lemma_div_is_ordered(
        c.prev_count * rem,
        c.prev_count * w,
        w,
    );
    vstd::arithmetic::div_mod::lemma_div_multiples_vanish(c.prev_count as int, w);
    vstd::arithmetic::div_mod::lemma_div_pos_is_pos(c.prev_count * rem, w);
}

/// Decay to empty: after an idle gap of more than two windows, the
/// next call finds both buckets empty and is admitted exactly as on a
/// freshly constructed limiter.
pub proof fn lemma_moving_window_decay(s: MovingWindow, now: u64)
    requires
        s.wf(),
        now - s.this_start > 2 * s.window,
    ensures
        s.step(now).1 == true,
        s.step(now).0.prev_count == 0,
        s.step(now).0.this_count == 1,
{
    let d = now - s.this_start;
    let w = s.window as int;
    let k = (d - 1) / w;
    assert(k >= 2) by {
        vstd::arithmetic::div_mod::lemma_div_is_ordered(2 * w, d - 1, w);
        vstd::arithmetic::div_mod::lemma_div_multiples_vanish(2, w);
    }
    let c = s.caught_up(now);
    assert(c.carried(now) == 0) by {
        assert(c.prev_count * (w - (now - c.this_start)) == 0) by (nonlinear_arith)
            requires
                c.prev_count == 0,
        ;
        vstd::arithmetic::div_mod::lemma_div_of0(w);
    }
}

/// Counters stay within `[0, limit]` under any well-ordered call
/// sequence, not only under a single step.
pub proof fn lemma_moving_window_run_bounds(s: MovingWindow, calls: Seq<u64>)
    requires
        s.wf(),
        non_decreasing(calls),
        calls.len() > 0 ==> s.this_start <= calls[0],
    ensures
        s.run(calls).0.wf(),
        s.run(calls).0.prev_count <= s.limit,
        s.run(calls).0.this_count <= s.limit,
    decreases calls.len(),
{
    if calls.len() > 0 {
        let (s1, b) = s.step(calls[0]);
        lemma_moving_window_step_bounds(s, calls[0]);
        lemma_non_decreasing_drop_first(calls);
        if calls.drop_first().len() > 0 {
            assert(calls.drop_first()[0] == calls[1]);
            assert(calls[0] <= calls[1]);
        }
        lemma_moving_window_run_bounds(s1, calls.drop_first());
    }
}

proof fn lemma_run_two_window_aux(s: MovingWindow, calls: Seq<u64>, base: int)
    requires
        s.wf(),
        non_decreasing(calls),
        calls.len() > 0 ==> s.this_start <= calls[0],
        forall|i: int| 0 <= i < calls.len() ==> calls[i] <= base + 2 * s.window,
        s.this_start == base || s.this_start >= base + s.window,
    ensures
        ({
            let (sf, a) = s.run(calls);
            &&& s.this_start == base ==> a <= 2 * s.limit - s.this_count
            &&& s.this_start >= base + s.window ==> a <= s.limit - s.this_count
        }),
    decreases calls.len(),
{
    if calls.len() == 0 {
    } else {
        let t = calls[0];
        let (s1, b) = s.step(t);
        lemma_moving_window_step_bounds(s, t);
        let d = t - s.this_start;
        let w = s.window as int;
        if d > w {
            // a catch-up cannot happen once the current window has
            // already advanced past the base window
            assert(s.this_start == base);
            let k = (d - 1) / w;
            vstd::arithmetic::div_mod::lemma_fundamental_div_mod(d - 1, w);
            vstd::arithmetic::div_mod::lemma_mod_bound(d - 1, w);
            assert(k >= 1) by (nonlinear_arith)
                requires
                    k == (d - 1) / w,
                    d - 1 >= w >= 1,
            ;
            assert(k * w >= w) by (nonlinear_arith)
                requires
                    k >= 1,
                    w >= 1,
            ;
            assert(w * k + (d - 1) % w == d - 1);
            assert(k * w == w * k) by (nonlinear_arith);
            assert(k * w <= d - 1);
            assert(s.caught_up(t).this_start == s.this_start + k * w);
            assert(s1.this_start >= base + s.window);
        }
        lemma_non_decreasing_drop_first(calls);
        assert(forall|i: int|
            0 <= i < calls.drop_first().len() ==> calls.drop_first()[i] <= base + 2 * s.window);
        lemma_run_two_window_aux(s1, calls.drop_first(), base);
    }
}

/// Interpolation bound: for any non-decreasing sequence of calls that
/// all fall within two back-to-back windows of the current one, the
/// number of admitted calls never exceeds `2 * limit`.
pub proof fn lemma_moving_window_two_window_bound(s: MovingWindow, calls: Seq<u64>)
    requires
        s.wf(),
        non_decreasing(calls),
        calls.len() > 0 ==> s.this_start <= calls[0],
        forall|i: int| 0 <= i < calls.len() ==> calls[i] <= s.this_start + 2 * s.window,
    ensures
        s.run(calls).1 <= 2 * s.limit,
{
    lemma_run_two_window_aux(s, calls, s.this_start as int);
}

} // verus!
