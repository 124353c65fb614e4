//! Token bucket: tokens accrue continuously at rate `limit / window`
//! and each admitted call spends one.

use vstd::prelude::*;

use crate::lemma_non_decreasing_drop_first;
use crate::non_decreasing;
use crate::LimiterError;
use crate::RateLimiter;

verus! {

/// Admission by spending tokens that accrue at `limit` per `window`
/// microseconds, capped at `limit`.
///
/// A freshly constructed bucket holds no tokens, so it denies a call
/// issued with zero elapsed time; the caller must wait at least
/// `window / limit` microseconds before the first admission.  The
/// recorded instant `last_hit` advances only when at least one whole
/// token was credited, so fractional progress between closely spaced
/// calls is never truncated away.
#[derive(Debug)]
pub struct TokenBucket {
    /// Whole tokens currently available; never exceeds `limit`.
    pub tokens: u64,
    /// Instant (microseconds) of the last token credit.
    pub last_hit: u64,
    /// Window length in microseconds; always positive.
    pub window: u64,
    /// Token cap, and tokens accrued per window; always positive.
    pub limit: u64,
}

impl TokenBucket {
    /// Whole tokens earned between `last_hit` and `now`: the elapsed
    /// microseconds times the rate `limit / window`, rounded down.
    pub open spec fn accrued(&self, now: u64) -> int {
        ((now - self.last_hit) * self.limit) / (self.window as int)
    }

    /// The number of whole tokens that should be credited for the time
    /// elapsed since the last credit, saturating at `u64::MAX`.
    pub fn new_tokens(&self, now: u64) -> (r: u64)
        requires
            self.wf(),
            self.last_hit <= now,
        ensures
            r == (if self.accrued(now) <= u64::MAX { self.accrued(now) } else { u64::MAX as int }),
    {
        let elapsed = (now - self.last_hit) as u128;
        proof {
            assert(elapsed * (self.limit as u128) <= u128::MAX) by (nonlinear_arith)
                requires
                    elapsed <= u64::MAX,
                    self.limit <= u64::MAX,
            ;
        }
        let q: u128 = elapsed * (self.limit as u128) / (self.window as u128);
        if q > u64::MAX as u128 {
            u64::MAX
        } else {
            q as u64
        }
    }

    /// Admissions under repeated calls: the final state and the number
    /// of admitted calls after issuing `allowed` once per instant in
    /// `calls`, in order.
    pub open spec fn run(self, calls: Seq<u64>) -> (TokenBucket, nat)
        decreases calls.len(),
    {
        if calls.len() == 0 {
            (self, 0nat)
        } else {
            let (s1, b) = self.step(calls[0]);
            let (sf, n) = s1.run(calls.drop_first());
            (sf, n + (if b { 1nat } else { 0nat }))
        }
    }
}

impl RateLimiter for TokenBucket {
    open spec fn wf(&self) -> bool {
        &&& 1 <= self.window
        &&& 1 <= self.limit
        &&& self.tokens <= self.limit
    }

    open spec fn clocked_at(&self) -> int {
        self.last_hit as int
    }

    open spec fn init(window: u64, limit: u64, now: u64) -> Self {
        TokenBucket { tokens: 0, last_hit: now, window, limit }
    }

    open spec fn step(&self, now: u64) -> (Self, bool) {
        let q = self.accrued(now);
        let s = if q > 0 {
            TokenBucket {
                tokens: (if self.tokens + q >= self.limit { self.limit } else { (self.tokens + q) as u64 }),
                last_hit: now,
                window: self.window,
                limit: self.limit,
            }
        } else {
            *self
        };
        if s.tokens == 0 {
            (s, false)
        } else {
            (
                TokenBucket {
                    tokens: (s.tokens - 1) as u64,
                    last_hit: s.last_hit,
                    window: s.window,
                    limit: s.limit,
                },
                true,
            )
        }
    }

    fn new(window: u64, limit: u64, now: u64) -> (r: Result<Self, LimiterError>) {
        if window >= 1 && limit >= 1 {
            Ok(TokenBucket { tokens: 0, last_hit: now, window, limit })
        } else {
            Err(LimiterError::InvalidConfiguration)
        }
    }

    fn allowed(&mut self, now: u64) -> (r: bool) {
        let q = self.new_tokens(now);
        if q > 0 {
            let room = self.limit - self.tokens;
            if q >= room {
                self.tokens = self.limit;
            } else {
                self.tokens = self.tokens + q;
            }
            self.last_hit = now;
        }
        if self.tokens == 0 {
            return false;
        }
        self.tokens = self.tokens - 1;
        true
    }
}

/// Cold start: a bucket with no tokens denies a call issued with zero
/// elapsed time and is left unchanged by it.
pub proof fn lemma_token_bucket_cold_start(s: TokenBucket)
    requires
        s.wf(),
        s.tokens == 0,
    ensures
        s.step(s.last_hit) == (s, false),
{
    assert((s.last_hit - s.last_hit) * s.limit == 0) by (nonlinear_arith);
    assert(s.accrued(s.last_hit) == 0) by {
        vstd::arithmetic::div_mod::lemma_div_of0(s.window as int);
    }
}

/// First admission after a cold start: as soon as the elapsed time has
/// earned one whole token but not yet two, the call is admitted and
/// leaves the bucket empty again, so the very next same-instant call
/// is denied.
pub proof fn lemma_token_bucket_first_accrual(s: TokenBucket, now: u64)
    requires
        s.wf(),
        s.tokens == 0,
        (now - s.last_hit) * s.limit >= s.window,
        (now - s.last_hit) * s.limit < 2 * s.window,
    ensures
        s.step(now).1 == true,
        s.step(now).0 == (TokenBucket {
            tokens: 0,
            last_hit: now,
            window: s.window,
            limit: s.limit,
        }),
{
    let e = now - s.last_hit;
    let w = s.window as int;
    assert(s.accrued(now) == 1) by {
        vstd::arithmetic::div_mod::lemma_div_is_ordered(w, e * s.limit, w);
        vstd::arithmetic::div_mod::lemma_div_by_self(w);
        assert(w * 2 == 2 * w) by (nonlinear_arith);
        vstd::arithmetic::div_mod::lemma_multiply_divide_lt(e * s.limit, w, 2);
    }
}

/// Burst after idle: once at least one full window has passed since
/// the last credit, the bucket refills completely, so the call at
/// `now` is admitted and exactly `limit - 1` tokens remain.
pub proof fn lemma_token_bucket_full_after_idle(s: TokenBucket, now: u64)
    requires
        s.wf(),
        now - s.last_hit >= s.window,
    ensures
        s.step(now).1 == true,
        s.step(now).0 == (TokenBucket {
            tokens: (s.limit - 1) as u64,
            last_hit: now,
            window: s.window,
            limit: s.limit,
        }),
{
    assert(s.accrued(now) >= s.limit) by {
        assert((now - s.last_hit) * s.limit >= s.window * s.limit) by (nonlinear_arith)
            requires
                now - s.last_hit >= s.window,
                s.limit >= 1,
        ;
        vstd::arithmetic::div_mod::lemma_div_is_ordered(
            s.window * s.limit,
            (now - s.last_hit) * s.limit,
            s.window as int,
        );
        vstd::arithmetic::div_mod::lemma_div_multiples_vanish(s.limit as int, s.window as int);
    }
}

/// Same-instant bursts spend the bucket exactly: issuing `n` calls all
/// clocked at the recorded instant admits one call per available token
/// and not one more.
pub proof fn lemma_token_bucket_same_instant_burst(s: TokenBucket, n: nat)
    requires
        s.wf(),
    ensures
        s.run(Seq::new(n, |i: int| s.last_hit)).1 == (if n <= s.tokens { n } else {
            s.tokens as nat
        }),
    decreases n,
{
    let calls = Seq::new(n, |i: int| s.last_hit);
    if n == 0 {
    } else {
        let (s1, b) = s.step(s.last_hit);
        assert(s.accrued(s.last_hit) == 0) by {
            assert((s.last_hit - s.last_hit) * s.limit == 0) by (nonlinear_arith);
            vstd::arithmetic::div_mod::lemma_div_of0(s.window as int);
        }
        assert(calls.drop_first() =~= Seq::new((n - 1) as nat, |i: int| s1.last_hit));
        lemma_token_bucket_same_instant_burst(s1, (n - 1) as nat);
    }
}

/// Token counts stay within `[0, limit]` under any well-ordered call
/// sequence, not only under a single step.
pub proof fn lemma_token_bucket_run_bounds(s: TokenBucket, calls: Seq<u64>)
    requires
        s.wf(),
        non_decreasing(calls),
        calls.len() > 0 ==> s.last_hit <= calls[0],
    ensures
        s.run(calls).0.wf(),
        s.run(calls).0.tokens <= s.limit,
    decreases calls.len(),
{
    if calls.len() > 0 {
        let (s1, b) = s.step(calls[0]);
        lemma_token_bucket_step_bounds(s, calls[0]);
        lemma_non_decreasing_drop_first(calls);
        if calls.drop_first().len() > 0 {
            assert(calls.drop_first()[0] == calls[1]);
            assert(calls[0] <= calls[1]);
        }
        lemma_token_bucket_run_bounds(s1, calls.drop_first());
    }
}

/// Token counts never go negative and never exceed the limit: every
/// step from a well-formed state, at an instant not before the state's
/// clock, keeps the token count within `[0, limit]` and never moves
/// the recorded instant backwards.
pub proof fn lemma_token_bucket_step_bounds(s: TokenBucket, now: u64)
    requires
        s.wf(),
        s.last_hit <= now,
    ensures
        s.step(now).0.wf(),
        s.step(now).0.tokens <= s.limit,
        s.last_hit <= s.step(now).0.last_hit <= now,
{
    vstd::arithmetic::div_mod::lemma_div_pos_is_pos((now - s.last_hit) * s.limit, s.window as int);
    assert((now - s.last_hit) * s.limit >= 0) by (nonlinear_arith)
        requires
            now - s.last_hit >= 0,
            s.limit >= 1,
    ;
}

} // verus!
