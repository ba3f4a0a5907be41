use shatters_relay::ratelimit::TokenBucket;

const MILLI: u64 = 1_000_000;
const SECOND: u64 = 1_000_000_000;

#[test]
fn burst_allows_initial_requests() {
    let mut tb = TokenBucket::new(10, 5);
    for _ in 0..5 {
        assert!(tb.try_acquire_one(), "should allow up to burst");
    }
    assert!(!tb.try_acquire_one(), "should reject after burst exhausted");
}

#[test]
fn cost_greater_than_one() {
    let mut tb = TokenBucket::new(10, 10);
    assert!(tb.try_acquire(5));
    assert!(tb.try_acquire(5));
    assert!(!tb.try_acquire(1), "should be empty");
}

#[test]
fn time_brings_tokens() {
    let mut tb = TokenBucket::new(100, 10);
    for _ in 0..10 {
        assert!(tb.try_acquire_at(0, 1));
    }
    assert!(!tb.try_acquire_at(0, 1));
    assert!(!tb.try_acquire_at(9 * MILLI, 1));
    assert!(tb.try_acquire_at(60 * MILLI, 6));
    assert!(!tb.try_acquire_at(60 * MILLI, 1));
}

#[test]
fn waiting_does_not_overfill() {
    let mut tb = TokenBucket::new(1000, 5);
    assert!(tb.try_acquire_at(100 * MILLI, 5));
    assert!(!tb.try_acquire_at(100 * MILLI, 1));
}

#[test]
fn burst_is_granted_and_no_more() {
    let mut tb = TokenBucket::new(1000, 100);
    let mut acquired = 0;
    for _ in 0..200 {
        if tb.try_acquire_at(0, 1) {
            acquired += 1;
        }
    }
    assert_eq!(acquired, 100);
}

#[test]
fn a_refused_request_costs_nothing() {
    let mut tb = TokenBucket::new(1, 3);
    assert!(!tb.try_acquire_at(0, 4));
    assert!(tb.try_acquire_at(0, 3));
}

#[test]
fn a_clock_that_goes_back_brings_nothing() {
    let mut tb = TokenBucket::new(1, 1);
    assert!(tb.try_acquire_at(SECOND, 1));
    assert!(!tb.try_acquire_at(0, 1));
    assert!(!tb.try_acquire_at(SECOND / 2, 1));
    assert!(tb.try_acquire_at(2 * SECOND, 1));
}

#[test]
fn a_long_pause_fills_the_bucket() {
    let mut tb = TokenBucket::new(u32::MAX, 7);
    assert!(tb.try_acquire_at(0, 7));
    assert!(tb.try_acquire_at(u64::MAX, 7));
    assert!(!tb.try_acquire_at(u64::MAX, 1));
}

#[test]
fn refills_add_up() {
    let mut tb = TokenBucket::new(2, 10);
    assert!(tb.try_acquire_at(0, 10));
    tb.refill_at(SECOND);
    tb.refill_at(2 * SECOND);
    assert!(tb.try_acquire_at(2 * SECOND, 4));
    assert!(!tb.try_acquire_at(2 * SECOND, 1));
    tb.refill();
}
