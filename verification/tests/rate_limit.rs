use semanticweft::rate_limit::RateLimiter;

#[test]
fn zero_limit_always_passes() {
    let mut rl = RateLimiter::new(0);
    for _ in 0..1000 {
        assert!(rl.check("1.2.3.4").is_ok());
    }
}

#[test]
fn within_limit_passes() {
    let mut rl = RateLimiter::new(5);
    for _ in 0..5 {
        assert!(rl.check("1.2.3.4").is_ok());
    }
}

#[test]
fn exceeding_limit_returns_retry_after() {
    let mut rl = RateLimiter::new(3);
    for _ in 0..3 {
        assert!(rl.check("1.2.3.4").is_ok());
    }
    let err = rl.check("1.2.3.4").unwrap_err();
    assert!(err > 0 && err <= 60, "retry-after should be 1–60s, got {err}");
}

#[test]
fn different_ips_have_independent_buckets() {
    let mut rl = RateLimiter::new(1);
    assert!(rl.check("1.1.1.1").is_ok());
    assert!(rl.check("2.2.2.2").is_ok());
    assert!(rl.check("1.1.1.1").is_err());
}

#[test]
fn window_resets_after_a_minute() {
    let mut rl = RateLimiter::new(2);
    let second: u64 = 1_000_000_000;
    assert_eq!(rl.check_at("k", 0), Ok(()));
    assert_eq!(rl.check_at("k", 10 * second), Ok(()));
    assert_eq!(rl.check_at("k", 15 * second), Err(45));
    assert_eq!(rl.check_at("k", 60 * second), Ok(()));
    assert_eq!(rl.check_at("k", 61 * second), Ok(()));
    assert_eq!(rl.check_at("k", 62 * second), Err(58));
}

#[test]
fn retry_after_is_at_least_one_second() {
    let mut rl = RateLimiter::new(1);
    let just_before_reset: u64 = 59_999_999_999;
    assert_eq!(rl.check_at("k", 0), Ok(()));
    assert_eq!(rl.check_at("k", just_before_reset), Err(1));
}

#[test]
fn one_window_allows_at_most_the_limit_whatever_other_clients_do() {
    let second = 1_000_000_000u64;
    let mut rl = RateLimiter::new(3);
    let mut allowed = 0;
    for i in 0..10u64 {
        if rl.check_at("a", i * second).is_ok() {
            allowed += 1;
        }
        assert_eq!(rl.check_at("b", i * second + 1), if i < 3 { Ok(()) } else { Err(60 - i) });
    }
    assert_eq!(allowed, 3);
    // A refusal changed nothing: the window still ends at sixty seconds.
    assert_eq!(rl.check_at("a", 59 * second), Err(1));
    assert_eq!(rl.check_at("a", 60 * second), Ok(()));
}
