//! The rate limiter: rule matching, keys, the sliding-window counter, and the
//! bypass path.

use gateway_core::envelope::SignedContent;
use gateway_core::limiter::{
    build_limiter_key, next_matching_rule, permit_granted, rate_limit_gate, rule_matches,
    test_forward_key, LimiterStep, PermitWindow, RateGate, RateLimitConfig, RateLimiter,
};

fn rule(path: &str, scope_ip: bool, strict: bool, interval_sec: u32, permits: u32) -> RateLimiter {
    RateLimiter { path: path.to_owned(), scope_ip, strict, interval_sec, permits }
}

#[test]
fn strict_rules_match_only_exact_paths() {
    let r = rule("/api", false, true, 60, 2);
    assert!(rule_matches(&r, "/api"));
    assert!(!rule_matches(&r, "/api/x"));
    assert!(!rule_matches(&r, "/ap"));
}

#[test]
fn loose_rules_match_prefixes() {
    let r = rule("/api", false, false, 60, 2);
    assert!(rule_matches(&r, "/api"));
    assert!(rule_matches(&r, "/api/x"));
    assert!(!rule_matches(&r, "/other"));
}

#[test]
fn limiter_key_carries_scope_and_path() {
    let scoped = rule("/api", true, false, 60, 2);
    let plain = rule("/api", false, false, 60, 2);
    assert_eq!(build_limiter_key(&scoped, "10.0.0.9"), "gateway:rate_limiter:ip:10.0.0.9:/api");
    assert_eq!(build_limiter_key(&plain, "10.0.0.9"), "gateway:rate_limiter:/api");
}

#[test]
fn window_of_two_admits_twice_then_denies() {
    // Rule {path:"/api", scopeIp:false, strict:false, window:60, max:2} and
    // three sequential requests to /api/x inside the window.
    let config = RateLimitConfig {
        limiters: vec![rule("/api", false, false, 60, 2)],
        forward_key_secret: "fwd".to_owned(),
    };
    let mut window = PermitWindow::new(60, 2);
    let mut outcomes: Vec<bool> = Vec::new();
    for now in [100i64, 110, 120] {
        match next_matching_rule(&config, "/api/x", 0) {
            LimiterStep::Acquire(i) => {
                assert_eq!(i, 0);
                outcomes.push(window.try_acquire(now));
            },
            LimiterStep::Admit => panic!("the rule must match"),
        }
    }
    assert_eq!(outcomes, vec![true, true, false]);
}

#[test]
fn window_slides_and_admits_again() {
    let mut window = PermitWindow::new(60, 2);
    assert!(window.try_acquire(100));
    assert!(window.try_acquire(110));
    assert!(!window.try_acquire(120));
    // 100 leaves the window at 161; one permit is free again.
    assert!(window.try_acquire(161));
    assert!(!window.try_acquire(162));
}

#[test]
fn no_matching_rule_admits() {
    let config = RateLimitConfig {
        limiters: vec![rule("/admin", false, false, 60, 1)],
        forward_key_secret: "fwd".to_owned(),
    };
    assert_eq!(next_matching_rule(&config, "/api/x", 0), LimiterStep::Admit);
}

#[test]
fn store_errors_deny_fail_closed() {
    assert!(permit_granted(Some(1)));
    assert!(!permit_granted(Some(0)));
    assert!(!permit_granted(None));
}

#[test]
fn bypass_envelope_admits_its_path_even_with_quota_exhausted() {
    let mut window = PermitWindow::new(60, 1);
    assert!(window.try_acquire(1_000));
    assert!(!window.try_acquire(1_001));
    let envelope = SignedContent {
        content: "/api/x".to_owned(),
        signed_at: 1_000,
        expire: 300,
        nonce: 1,
        id: "id".to_owned(),
    };
    let key = envelope.to_signed_string("fwd");
    // The bypass is the sole determinant: the exhausted window is never asked.
    assert_eq!(rate_limit_gate(Some(&key), "/api/x", "fwd", 1_001), RateGate::Admit);
    // The same key for another path is denied, not evaluated against rules.
    assert_eq!(rate_limit_gate(Some(&key), "/api/y", "fwd", 1_001), RateGate::Deny);
    // Without the header the rules are evaluated.
    assert_eq!(rate_limit_gate(None, "/api/x", "fwd", 1_001), RateGate::Evaluate);
}

#[test]
fn bypass_rejects_wrong_secret_and_expiry() {
    let envelope = SignedContent {
        content: "/api/x".to_owned(),
        signed_at: 1_000,
        expire: 30,
        nonce: 1,
        id: "id".to_owned(),
    };
    let key = envelope.to_signed_string("fwd");
    assert!(test_forward_key(&key, "/api/x", "fwd", 1_010));
    assert!(!test_forward_key(&key, "/api/x", "other", 1_010));
    assert!(!test_forward_key(&key, "/api/x", "fwd", 1_030));
    assert!(!test_forward_key("garbage", "/api/x", "fwd", 1_010));
}
