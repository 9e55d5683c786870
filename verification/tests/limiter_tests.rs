use std::sync::Arc;
use std::sync::Mutex;

use warp_rate_limit::LimitAlgorithm;
use warp_rate_limit::Outcome;
use warp_rate_limit::RateLimitConfig;
use warp_rate_limit::RateLimiter;
use warp_rate_limit::RetryAfterFormat;

fn config(max_requests: u32, window_millis: u64) -> RateLimitConfig {
    RateLimitConfig {
        max_requests,
        window_millis,
        retry_after_format: RetryAfterFormat::Seconds,
        algorithm: LimitAlgorithm::FixedWindow,
    }
}

fn sliding_config(max_requests: u32, window_millis: u64) -> RateLimitConfig {
    config(max_requests, window_millis).with_algorithm(LimitAlgorithm::SlidingWindow)
}

/// A single key strictly within one window: admitted exactly `N` times with
/// `remaining` counting down from `N - 1` to zero, rejected from then on.
#[test]
fn test_quota_within_one_window() {
    let n: u32 = 5;
    let mut limiter = RateLimiter::new(config(n, 60_000));
    for i in 0..n {
        match limiter.check("10.0.0.1", 1_000 + i as u64) {
            Outcome::Admitted { remaining, reset_at } => {
                assert_eq!(remaining, n - 1 - i);
                assert_eq!(reset_at, 1_000 + 60_000);
            }
            Outcome::Rejected { .. } => panic!("request {} must be admitted", i),
        }
    }
    for i in n..(n + 3) {
        match limiter.check("10.0.0.1", 1_000 + i as u64) {
            Outcome::Admitted { .. } => panic!("request {} must be rejected", i),
            Outcome::Rejected { retry_after, limit, reset_at } => {
                assert_eq!(limit, n);
                assert_eq!(reset_at, 1_000 + 60_000);
                assert!(retry_after > 0 && retry_after <= 60_000);
            }
        }
    }
}

/// After the window fully elapses following exhaustion, the next request is
/// admitted again with the full quota less one: the window resets entirely.
#[test]
fn test_window_fully_resets_after_exhaustion() {
    let n: u32 = 3;
    let mut limiter = RateLimiter::new(config(n, 5_000));
    for _ in 0..n {
        assert!(matches!(limiter.check("k", 1_000), Outcome::Admitted { .. }));
    }
    assert!(matches!(limiter.check("k", 2_000), Outcome::Rejected { .. }));
    // More than one full window after the window began.
    match limiter.check("k", 1_000 + 5_000 + 1) {
        Outcome::Admitted { remaining, reset_at } => {
            assert_eq!(remaining, n - 1);
            assert_eq!(reset_at, 6_001 + 5_000);
        }
        Outcome::Rejected { .. } => panic!("window must have reset"),
    }
}

/// Two distinct keys never influence each other's quotas: key A exhausted,
/// key B still admitted on its first request.
#[test]
fn test_distinct_keys_are_isolated() {
    let mut limiter = RateLimiter::new(config(1, 60_000));
    assert!(matches!(limiter.check("key-a", 1_000), Outcome::Admitted { .. }));
    assert!(matches!(limiter.check("key-a", 1_001), Outcome::Rejected { .. }));
    match limiter.check("key-b", 1_002) {
        Outcome::Admitted { remaining, .. } => assert_eq!(remaining, 0),
        Outcome::Rejected { .. } => panic!("key B must not be affected by key A"),
    }
    // And exhausting B still leaves A rejected, B rejected: no cross-talk.
    assert!(matches!(limiter.check("key-b", 1_003), Outcome::Rejected { .. }));
    assert!(matches!(limiter.check("key-a", 1_004), Outcome::Rejected { .. }));
}

/// The scenario: max_requests = 2, window = 5 s. Two admissions counting
/// down, a rejection with retry_after in (0, 5s], then an admission again
/// after sleeping past the window.
#[test]
fn test_two_per_five_seconds_scenario() {
    let mut limiter = RateLimiter::new(config(2, 5_000));
    match limiter.check("client", 10_000) {
        Outcome::Admitted { remaining, .. } => assert_eq!(remaining, 1),
        Outcome::Rejected { .. } => panic!("request 1 must be admitted"),
    }
    match limiter.check("client", 11_000) {
        Outcome::Admitted { remaining, .. } => assert_eq!(remaining, 0),
        Outcome::Rejected { .. } => panic!("request 2 must be admitted"),
    }
    match limiter.check("client", 12_000) {
        Outcome::Admitted { .. } => panic!("request 3 must be rejected"),
        Outcome::Rejected { retry_after, limit, reset_at } => {
            assert!(retry_after > 0 && retry_after <= 5_000);
            assert_eq!(retry_after, 3_000);
            assert_eq!(limit, 2);
            assert_eq!(reset_at, 15_000);
        }
    }
    match limiter.check("client", 12_000 + 5_000) {
        Outcome::Admitted { remaining, .. } => assert_eq!(remaining, 1),
        Outcome::Rejected { .. } => panic!("request 4 after the window must be admitted"),
    }
}

/// A rejection's retry_after is positive, bounded by the window, and shrinks
/// as the window ages.
#[test]
fn test_retry_after_bounds_and_decrease() {
    let mut limiter = RateLimiter::new(config(1, 10_000));
    assert!(matches!(limiter.check("k", 0), Outcome::Admitted { .. }));
    let mut last = 10_001u64;
    for t in [1_000u64, 4_000, 9_999] {
        match limiter.check("k", t) {
            Outcome::Rejected { retry_after, .. } => {
                assert!(retry_after > 0 && retry_after <= 10_000);
                assert!(retry_after < last);
                last = retry_after;
            }
            Outcome::Admitted { .. } => panic!("still within the window"),
        }
    }
}

/// A quota of zero rejects unconditionally and tracks no state.
#[test]
fn test_zero_quota_rejects_unconditionally() {
    let mut limiter = RateLimiter::new(config(0, 5_000));
    for t in [0u64, 1_000, 100_000] {
        match limiter.check("k", t) {
            Outcome::Rejected { retry_after, limit, reset_at } => {
                assert_eq!(retry_after, 5_000);
                assert_eq!(limit, 0);
                assert_eq!(reset_at, t + 5_000);
            }
            Outcome::Admitted { .. } => panic!("a zero quota must reject"),
        }
    }
    assert!(!limiter.contains_key("k"));
}

/// Ten concurrent requests for one key with a quota of five: exactly five
/// admitted and five rejected, counted atomically under the shared lock.
#[test]
fn test_concurrent_requests() {
    let limiter = Arc::new(Mutex::new(RateLimiter::new(config(5, 1_000))));
    let rt = tokio::runtime::Builder::new_multi_thread().worker_threads(4).build().unwrap();
    let admitted = rt.block_on(async {
        let mut handles = Vec::new();
        for _ in 0..10 {
            let shared = Arc::clone(&limiter);
            handles.push(tokio::spawn(async move {
                let mut guard = shared.lock().unwrap();
                matches!(guard.check("127.0.0.1", 500), Outcome::Admitted { .. })
            }));
        }
        let mut admitted = 0;
        for handle in handles {
            if handle.await.unwrap() {
                admitted += 1;
            }
        }
        admitted
    });
    assert_eq!(admitted, 5, "Expected exactly 5 successful requests");
    assert_eq!(10 - admitted, 5, "Expected exactly 5 rate-limited requests");
}

/// Sweeping removes exactly the entries whose window has fully elapsed, and
/// a swept key behaves like a fresh one afterwards.
#[test]
fn test_sweep_expired_entries() {
    let mut limiter = RateLimiter::new(config(1, 5_000));
    assert!(matches!(limiter.check("old", 1_000), Outcome::Admitted { .. }));
    assert!(matches!(limiter.check("fresh", 4_000), Outcome::Admitted { .. }));
    assert!(limiter.contains_key("old"));
    assert!(limiter.contains_key("fresh"));

    // At 6_001 the "old" window (1_000 + 5_000) has fully elapsed, the
    // "fresh" one (4_000 + 5_000) has not.
    limiter.sweep_expired(6_001);
    assert!(!limiter.contains_key("old"));
    assert!(limiter.contains_key("fresh"));

    // The swept key starts over exactly like an unseen one.
    match limiter.check("old", 6_500) {
        Outcome::Admitted { remaining, reset_at } => {
            assert_eq!(remaining, 0);
            assert_eq!(reset_at, 6_500 + 5_000);
        }
        Outcome::Rejected { .. } => panic!("swept key must be admitted again"),
    }
    // The kept key is still within its window and already at quota.
    assert!(matches!(limiter.check("fresh", 6_500), Outcome::Rejected { .. }));
}

/// check_rate_limit renders the outcome: Ok carries the admission metadata,
/// Err the rejection metadata, with the same state transition as check.
#[test]
fn test_check_rate_limit_result() {
    let mut limiter = RateLimiter::new(config(2, 5_000));
    let info = limiter.check_rate_limit("k", 10_000).expect("first request is admitted");
    assert_eq!(info.limit, 2);
    assert_eq!(info.remaining, 1);
    assert_eq!(info.reset_timestamp, 15);
    assert_eq!(info.retry_after, "5");
    assert_eq!(info.retry_after_format, RetryAfterFormat::Seconds);

    limiter.check_rate_limit("k", 10_500).expect("second request is admitted");
    let rejection = match limiter.check_rate_limit("k", 12_000) {
        Ok(_) => panic!("third request must be rejected"),
        Err(r) => r,
    };
    assert_eq!(rejection.retry_after, 3_000);
    assert_eq!(rejection.limit, 2);
    assert_eq!(rejection.reset_time, 15);
    assert_eq!(rejection.retry_after_format, RetryAfterFormat::Seconds);
}

/// The sliding scenario: max_requests = 2, window = 5 s. After the earliest
/// recorded instant leaves the trailing window the key recovers one slot —
/// not the whole quota, as the fixed window would grant.
#[test]
fn test_sliding_window_scenario() {
    let mut limiter = RateLimiter::new(sliding_config(2, 5_000));
    match limiter.check("client", 10_000) {
        Outcome::Admitted { remaining, reset_at } => {
            assert_eq!(remaining, 1);
            assert_eq!(reset_at, 15_000);
        }
        Outcome::Rejected { .. } => panic!("request 1 must be admitted"),
    }
    match limiter.check("client", 11_000) {
        Outcome::Admitted { remaining, reset_at } => {
            assert_eq!(remaining, 0);
            assert_eq!(reset_at, 15_000);
        }
        Outcome::Rejected { .. } => panic!("request 2 must be admitted"),
    }
    match limiter.check("client", 13_000) {
        Outcome::Admitted { .. } => panic!("request 3 must be rejected"),
        Outcome::Rejected { retry_after, limit, reset_at } => {
            assert_eq!(retry_after, 2_000);
            assert_eq!(limit, 2);
            assert_eq!(reset_at, 15_000);
        }
    }
    // At 15_001 the event at 10_000 has left the trailing window, the one at
    // 11_000 has not: exactly one slot is free again.
    match limiter.check("client", 15_001) {
        Outcome::Admitted { remaining, reset_at } => {
            assert_eq!(remaining, 0);
            assert_eq!(reset_at, 16_000);
        }
        Outcome::Rejected { .. } => panic!("one slot must be free again"),
    }
}

/// Where the fixed window forgets the whole burst at a boundary, the sliding
/// window still counts every event of the trailing window.
#[test]
fn test_sliding_window_is_stricter_at_boundaries() {
    let mut fixed = RateLimiter::new(config(2, 5_000));
    let mut sliding = RateLimiter::new(sliding_config(2, 5_000));
    for limiter in [&mut fixed, &mut sliding] {
        assert!(matches!(limiter.check("k", 0), Outcome::Admitted { .. }));
        assert!(matches!(limiter.check("k", 2_900), Outcome::Admitted { .. }));
    }
    // At 5_500 the fixed window (begun at 0) has fully elapsed and resets:
    // the whole quota is back. The sliding window still holds the event at
    // 2_900, so only one slot is free.
    match fixed.check("k", 5_500) {
        Outcome::Admitted { remaining, .. } => assert_eq!(remaining, 1),
        Outcome::Rejected { .. } => panic!("fixed window must have reset"),
    }
    match sliding.check("k", 5_500) {
        Outcome::Admitted { remaining, .. } => assert_eq!(remaining, 0),
        Outcome::Rejected { .. } => panic!("sliding window must admit one"),
    }
}

/// The quota law holds for the sliding window exactly as for the fixed one:
/// within one window, admissions count down and then every check is
/// rejected.
#[test]
fn test_sliding_quota_within_one_window() {
    let n: u32 = 4;
    let mut limiter = RateLimiter::new(sliding_config(n, 60_000));
    for i in 0..n {
        match limiter.check("10.0.0.1", 1_000 + i as u64) {
            Outcome::Admitted { remaining, reset_at } => {
                assert_eq!(remaining, n - 1 - i);
                assert_eq!(reset_at, 1_000 + 60_000);
            }
            Outcome::Rejected { .. } => panic!("request {} must be admitted", i),
        }
    }
    for i in n..(n + 3) {
        match limiter.check("10.0.0.1", 1_000 + i as u64) {
            Outcome::Admitted { .. } => panic!("request {} must be rejected", i),
            Outcome::Rejected { retry_after, limit, reset_at } => {
                assert_eq!(limit, n);
                assert_eq!(reset_at, 1_000 + 60_000);
                assert!(retry_after > 0 && retry_after <= 60_000);
            }
        }
    }
}

/// Sweeping drops a sliding entry once every recorded instant is more than a
/// full window old, and never earlier.
#[test]
fn test_sliding_sweep_expired_entries() {
    let mut limiter = RateLimiter::new(sliding_config(2, 5_000));
    assert!(matches!(limiter.check("k", 1_000), Outcome::Admitted { .. }));
    assert!(matches!(limiter.check("k", 3_000), Outcome::Admitted { .. }));

    // The event at 1_000 has expired at 6_500, the one at 3_000 has not.
    limiter.sweep_expired(6_500);
    assert!(limiter.contains_key("k"));

    // At 8_001 both events are more than a window old.
    limiter.sweep_expired(8_001);
    assert!(!limiter.contains_key("k"));
}

/// A zero quota rejects unconditionally under the sliding window too.
#[test]
fn test_sliding_zero_quota_rejects_unconditionally() {
    let mut limiter = RateLimiter::new(sliding_config(0, 5_000));
    match limiter.check("k", 1_000) {
        Outcome::Rejected { retry_after, limit, reset_at } => {
            assert_eq!(retry_after, 5_000);
            assert_eq!(limit, 0);
            assert_eq!(reset_at, 6_000);
        }
        Outcome::Admitted { .. } => panic!("a zero quota must reject"),
    }
    assert!(!limiter.contains_key("k"));
}
