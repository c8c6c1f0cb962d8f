use example_chat::rate_limit::RateLimiter;
use example_chat::rate_limit::MIN_INTERVAL_MS;

#[test]
fn first_attempt_is_accepted() {
    let mut rl = RateLimiter::new();
    assert!(rl.try_accept(&"user_aaaaaa".to_string(), 1000));
}

#[test]
fn second_attempt_under_interval_is_rejected() {
    let mut rl = RateLimiter::new();
    let id = "user_aaaaaa".to_string();
    assert!(rl.try_accept(&id, 1000));
    assert!(!rl.try_accept(&id, 1100));
}

#[test]
fn second_attempt_at_or_after_interval_is_accepted() {
    let mut rl = RateLimiter::new();
    let id = "user_aaaaaa".to_string();
    assert!(rl.try_accept(&id, 1000));
    assert!(rl.try_accept(&id, 1000 + MIN_INTERVAL_MS));
}

#[test]
fn rejection_does_not_reset_the_window() {
    let mut rl = RateLimiter::new();
    let id = "user_aaaaaa".to_string();
    assert!(rl.try_accept(&id, 1000));
    assert!(!rl.try_accept(&id, 1200));
    // The rejected attempt at 1200 did not move the window: 1260 is 260 ms
    // after the last accepted message.
    assert!(rl.try_accept(&id, 1260));
}

#[test]
fn identities_are_throttled_independently() {
    let mut rl = RateLimiter::new();
    let a = "user_aaaaaa".to_string();
    let b = "user_bbbbbb".to_string();
    assert!(rl.try_accept(&a, 1000));
    assert!(rl.try_accept(&b, 1001));
    assert!(!rl.try_accept(&a, 1100));
    assert!(!rl.try_accept(&b, 1100));
}
