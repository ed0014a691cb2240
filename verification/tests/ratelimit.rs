use wispmq::ratelimit::RateLimiter;

#[test]
fn allows_exactly_limit_attempts_per_window() {
    let mut rl = RateLimiter::with_window(2, 60_000);
    assert!(rl.check("127.0.0.1", 0));
    assert!(rl.check("127.0.0.1", 1));
    assert!(
        !rl.check("127.0.0.1", 2),
        "third attempt within the window must be rejected"
    );
}

#[test]
fn a_new_window_resets_the_count() {
    let mut rl = RateLimiter::with_window(1, 20);
    assert!(rl.check("127.0.0.1", 0));
    assert!(!rl.check("127.0.0.1", 1));
    assert!(
        rl.check("127.0.0.1", 31),
        "a new window should allow another attempt"
    );
}

#[test]
fn zero_limit_never_rejects() {
    let mut rl = RateLimiter::with_window(0, 60_000);
    for i in 0..100 {
        assert!(rl.check("127.0.0.1", i));
    }
}

#[test]
fn distinct_ips_have_independent_budgets() {
    let mut rl = RateLimiter::with_window(1, 60_000);
    assert!(rl.check("127.0.0.1", 0));
    assert!(!rl.check("127.0.0.1", 0));
    assert!(
        rl.check("127.0.0.2", 0),
        "a different source IP must have its own budget"
    );
}

#[test]
fn sweep_evicts_aged_out_entries() {
    let mut rl = RateLimiter::with_window(1, 10);
    assert!(rl.check("127.0.0.1", 0));
    assert_eq!(rl.len(), 1);
    rl.sweep(25);
    assert_eq!(
        rl.len(),
        0,
        "an entry older than window * 2 should be swept"
    );
}

#[test]
fn sweep_keeps_what_still_counts() {
    let mut rl = RateLimiter::with_window(1, 10);
    assert!(rl.check("a", 0));
    rl.sweep(5);
    assert_eq!(rl.len(), 1);
    assert!(!rl.check("a", 6));
}
