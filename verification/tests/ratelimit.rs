use std::time::{Duration, Instant};

use sic_irc::SlidingWindowLimiter;

#[test]
fn allows_up_to_max_then_drops() {
    let mut lim = SlidingWindowLimiter::new(3, Duration::from_secs(1));
    assert!(lim.check_and_consume());
    assert!(lim.check_and_consume());
    assert!(lim.check_and_consume());
    assert!(!lim.check_and_consume());
    assert!(!lim.check_and_consume());
}

#[test]
fn resets_after_window() {
    let mut lim = SlidingWindowLimiter::new(1, Duration::from_millis(50));
    assert!(lim.check_and_consume());
    assert!(!lim.check_and_consume());
    let waited = Instant::now();
    while waited.elapsed() < Duration::from_millis(80) {}
    assert!(lim.check_and_consume());
}

#[test]
fn a_message_counts_for_the_length_of_a_window() {
    let mut lim = SlidingWindowLimiter::new(1, Duration::from_nanos(100));
    assert!(lim.check_and_consume_at(0));
    assert!(!lim.check_and_consume_at(100));
    assert!(lim.check_and_consume_at(101));
    assert!(!lim.check_and_consume_at(201));
    assert!(lim.check_and_consume_at(202));
}

#[test]
fn the_window_slides() {
    let mut lim = SlidingWindowLimiter::new(1, Duration::from_secs(5));
    assert!(lim.check_and_consume_at(4_000_000_000));
    assert!(!lim.check_and_consume_at(5_000_000_001));
    assert!(!lim.check_and_consume_at(9_000_000_000));
    assert!(lim.check_and_consume_at(9_000_000_001));
}

#[test]
fn a_dropped_message_does_not_count() {
    let mut lim = SlidingWindowLimiter::new(2, Duration::from_nanos(10));
    assert!(lim.check_and_consume_at(0));
    assert!(lim.check_and_consume_at(5));
    assert!(!lim.check_and_consume_at(9));
    assert!(lim.check_and_consume_at(11));
    assert!(!lim.check_and_consume_at(15));
    assert!(lim.check_and_consume_at(16));
}

#[test]
fn first_messages_of_a_window_pass() {
    let mut lim = SlidingWindowLimiter::new(5, Duration::from_secs(1));
    for i in 0u128..20 {
        assert_eq!(lim.check_and_consume_at(i * 1_000_000), i < 5);
    }
}

#[test]
fn default_policy_is_fifty_in_five_seconds() {
    let mut lim = SlidingWindowLimiter::default_irc();
    for _ in 0..50 {
        assert!(lim.check_and_consume_at(4_999_999_999));
    }
    assert!(!lim.check_and_consume_at(9_999_999_999));
    assert!(lim.check_and_consume_at(10_000_000_000));
}

#[test]
fn none_pass_where_none_are_allowed() {
    let mut lim = SlidingWindowLimiter::new(0, Duration::from_nanos(10));
    assert!(!lim.check_and_consume_at(0));
    assert!(!lim.check_and_consume_at(11));
}

#[test]
fn no_span_holds_more_than_the_limit() {
    let mut lim = SlidingWindowLimiter::new(3, Duration::from_nanos(100));
    let mut passed = vec![];
    for i in 0u128..200 {
        let now = i * i % 7 + i * 9;
        let now = passed.last().map_or(now, |last: &u128| now.max(*last));
        if lim.check_and_consume_at(now) {
            passed.push(now);
        }
    }
    assert!(passed.len() > 40);
    for four in passed.windows(4) {
        assert!(four[3] - four[0] > 100);
    }
}

#[test]
fn a_time_before_the_window_is_counted_in_it() {
    let mut lim = SlidingWindowLimiter::new(1, Duration::from_nanos(10));
    assert!(lim.check_and_consume_at(50));
    assert!(!lim.check_and_consume_at(40));
}
