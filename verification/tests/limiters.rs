use rate_limiter::fixed_window::FixedWindow;
use rate_limiter::moving_window::MovingWindow;
use rate_limiter::token_bucket::TokenBucket;
use rate_limiter::LimiterError;
use rate_limiter::RateLimiter;

const SECOND: u64 = 1_000_000;

#[test]
fn fixed_window_burst() {
    // window = 60s, limit = 5, constructed at instant 0
    let mut limiter = FixedWindow::new(60 * SECOND, 5, 0).unwrap();
    for _ in 0..5 {
        assert!(limiter.allowed(0));
    }
    assert!(!limiter.allowed(0));
    // an event landing exactly `window` after the start still counts
    // against the old, exhausted window
    assert!(!limiter.allowed(60 * SECOND));
    // one tick later a new window opens and the counter resets
    assert!(limiter.allowed(60 * SECOND + 1));
    for _ in 0..4 {
        assert!(limiter.allowed(60 * SECOND + 1));
    }
    assert!(!limiter.allowed(60 * SECOND + 1));
}

#[test]
fn fixed_window_rejects_bad_configuration() {
    assert_eq!(
        FixedWindow::new(0, 5, 0).unwrap_err(),
        LimiterError::InvalidConfiguration
    );
    assert_eq!(
        FixedWindow::new(60 * SECOND, 0, 0).unwrap_err(),
        LimiterError::InvalidConfiguration
    );
}

#[test]
fn token_bucket_cold_start() {
    // window = 10s, limit = 10: one token accrues every second
    let mut limiter = TokenBucket::new(10 * SECOND, 10, 0).unwrap();
    // freshly constructed, zero elapsed: denied
    assert!(!limiter.allowed(0));
    // exactly window / limit later one whole token exists
    assert!(limiter.allowed(SECOND));
    assert!(!limiter.allowed(SECOND));
    // another accrual interval buys exactly one more admission
    assert!(limiter.allowed(2 * SECOND));
    assert!(!limiter.allowed(2 * SECOND));
}

#[test]
fn token_bucket_burst_after_idle() {
    // window = 10s, limit = 10, idle for a full window
    let mut limiter = TokenBucket::new(10 * SECOND, 10, 0).unwrap();
    for _ in 0..10 {
        assert!(limiter.allowed(10 * SECOND));
    }
    assert!(!limiter.allowed(10 * SECOND));
}

#[test]
fn token_bucket_keeps_fractional_progress() {
    // one token per second; polling every 600ms must not truncate the
    // fraction away: the second poll has accrued 1.2 tokens
    let mut limiter = TokenBucket::new(10 * SECOND, 10, 0).unwrap();
    assert!(!limiter.allowed(600_000));
    assert!(limiter.allowed(1_200_000));
    assert!(!limiter.allowed(1_200_000));
}

#[test]
fn token_bucket_new_tokens_formula() {
    // window = 10us, limit = 3: 5us elapsed earns floor(5 * 3 / 10) = 1
    let limiter = TokenBucket::new(10, 3, 0).unwrap();
    assert_eq!(limiter.new_tokens(5), 1);
    assert_eq!(limiter.new_tokens(3), 0);
    assert_eq!(limiter.new_tokens(10), 3);
    assert_eq!(limiter.new_tokens(25), 7);
}

#[test]
fn token_bucket_rejects_bad_configuration() {
    assert_eq!(
        TokenBucket::new(0, 10, 0).unwrap_err(),
        LimiterError::InvalidConfiguration
    );
    assert_eq!(
        TokenBucket::new(10 * SECOND, 0, 0).unwrap_err(),
        LimiterError::InvalidConfiguration
    );
}

#[test]
fn moving_window_burst_and_interpolation() {
    // window = 1s, limit = 10, constructed at instant 0
    let mut limiter = MovingWindow::new(SECOND, 10, 0).unwrap();
    for _ in 0..10 {
        assert!(limiter.allowed(0));
    }
    assert!(!limiter.allowed(0));
    // halfway into the next window the previous one still carries
    // 10 * 0.5 = 5 estimated hits, leaving room for exactly 5 more
    for _ in 0..5 {
        assert!(limiter.allowed(1_500_000));
    }
    assert!(!limiter.allowed(1_500_000));
}

#[test]
fn moving_window_decay() {
    // window = 1s, limit = 10: a long idle gap forgets all history
    let mut limiter = MovingWindow::new(SECOND, 10, 0).unwrap();
    for _ in 0..10 {
        assert!(limiter.allowed(0));
    }
    assert!(!limiter.allowed(0));
    // far more than two windows later the limiter admits as if fresh
    for _ in 0..10 {
        assert!(limiter.allowed(10 * SECOND));
    }
    assert!(!limiter.allowed(10 * SECOND));
}

#[test]
fn moving_window_rejects_bad_configuration() {
    assert_eq!(
        MovingWindow::new(0, 10, 0).unwrap_err(),
        LimiterError::InvalidConfiguration
    );
    assert_eq!(
        MovingWindow::new(SECOND, 0, 0).unwrap_err(),
        LimiterError::InvalidConfiguration
    );
}
