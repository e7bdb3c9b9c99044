use ai_sidecar_proxy::rate_limiter::{RateLimitConfig, RateLimiter, TokenBucket, TOKEN};
use std::time::{Duration, Instant};

const MILLI: u64 = 1_000_000;

fn wait(span: Duration) {
    let start = Instant::now();
    while start.elapsed() < span {
        std::hint::spin_loop();
    }
}

#[test]
fn test_rate_limiter_basic() {
    let config = RateLimitConfig {
        requests_per_second: 2,
        burst_size: 5,
        window_size_ms: 1000,
    };

    let mut limiter = RateLimiter::new(config);

    for _ in 0..5 {
        assert!(limiter.is_allowed("test"));
    }

    assert!(!limiter.is_allowed("test"));
}

#[test]
fn test_rate_limiter_refill() {
    let config = RateLimitConfig {
        requests_per_second: 10,
        burst_size: 1,
        window_size_ms: 1000,
    };

    let mut limiter = RateLimiter::new(config);

    assert!(limiter.is_allowed("test"));
    assert!(!limiter.is_allowed("test"));

    wait(Duration::from_millis(200));

    assert!(limiter.is_allowed("test"));
}

#[test]
fn token_bucket_refills_by_elapsed_time() {
    let config = RateLimitConfig {
        requests_per_second: 2,
        burst_size: 5,
        window_size_ms: 1000,
    };
    let mut limiter = RateLimiter::new(config);
    for _ in 0..5 {
        assert!(limiter.is_allowed_at("k", 0));
    }
    assert!(!limiter.is_allowed_at("k", 0));
    assert_eq!(limiter.get_remaining_tokens("k"), 0);
    // 0.6 s at 2 tokens per second earn 1.2 tokens
    assert!(limiter.is_allowed_at("k", 600 * MILLI));
    assert_eq!(limiter.get_remaining_tokens("k"), TOKEN / 5);
    assert!(!limiter.is_allowed_at("k", 600 * MILLI));
    assert_eq!(limiter.get_remaining_tokens("k"), TOKEN / 5);
}

#[test]
fn refill_stops_at_capacity() {
    let config = RateLimitConfig {
        requests_per_second: 1000,
        burst_size: 3,
        window_size_ms: 1000,
    };
    let mut limiter = RateLimiter::new(config);
    assert!(limiter.is_allowed_at("k", 0));
    assert!(limiter.is_allowed_n_at("k", 0, u64::MAX));
    assert_eq!(limiter.get_remaining_tokens("k"), 3 * TOKEN);
}

#[test]
fn request_for_nothing_is_granted_and_free() {
    let config = RateLimitConfig {
        requests_per_second: 1,
        burst_size: 1,
        window_size_ms: 1000,
    };
    let mut limiter = RateLimiter::new(config);
    assert!(limiter.is_allowed_at("k", 0));
    assert_eq!(limiter.get_remaining_tokens("k"), 0);
    assert!(limiter.is_allowed_n_at("k", 0, 0));
    assert_eq!(limiter.get_remaining_tokens("k"), 0);
    assert!(limiter.is_allowed_n_at("k", 0, 250 * MILLI));
    assert_eq!(limiter.get_remaining_tokens("k"), TOKEN / 4);
    assert!(limiter.is_allowed_n("other", 0));
    assert_eq!(limiter.get_remaining_tokens("other"), TOKEN);
}

#[test]
fn fractional_requests_are_counted_exactly() {
    let config = RateLimitConfig {
        requests_per_second: 0,
        burst_size: 1,
        window_size_ms: 1000,
    };
    let mut limiter = RateLimiter::new(config);
    assert!(limiter.is_allowed_n_at("k", TOKEN / 2, 0));
    assert!(limiter.is_allowed_n_at("k", TOKEN / 2, 1_000_000_000));
    assert!(!limiter.is_allowed_n_at("k", 1, 2_000_000_000));
}

#[test]
fn missing_bucket_counts_as_full_and_reset_forgets() {
    let config = RateLimitConfig {
        requests_per_second: 1,
        burst_size: 4,
        window_size_ms: 1000,
    };
    let mut limiter = RateLimiter::new(config);
    assert_eq!(limiter.get_remaining_tokens("k"), 4 * TOKEN);
    assert!(limiter.is_allowed_at("k", 0));
    assert_eq!(limiter.get_remaining_tokens("k"), 3 * TOKEN);
    limiter.reset_bucket("k");
    assert_eq!(limiter.get_remaining_tokens("k"), 4 * TOKEN);
    limiter.reset_bucket("never seen");
}

#[test]
fn sweep_discards_buckets_idle_for_five_minutes() {
    let config = RateLimitConfig {
        requests_per_second: 0,
        burst_size: 2,
        window_size_ms: 1000,
    };
    let second = 1_000_000_000u64;
    let mut limiter = RateLimiter::new(config);
    assert!(limiter.is_allowed_at("old", 0));
    assert!(limiter.is_allowed_at("edge", 1));
    assert!(limiter.is_allowed_at("new", 200 * second));
    limiter.cleanup_expired_buckets_at(300 * second);
    // "old" was last used exactly five minutes ago, which is not older than that
    assert_eq!(limiter.get_remaining_tokens("old"), TOKEN);
    assert_eq!(limiter.get_remaining_tokens("edge"), TOKEN);
    assert_eq!(limiter.get_remaining_tokens("new"), TOKEN);
    limiter.cleanup_expired_buckets_at(300 * second + 1);
    // one nanosecond later "old" is older than five minutes and is gone
    assert_eq!(limiter.get_remaining_tokens("old"), 2 * TOKEN);
    assert_eq!(limiter.get_remaining_tokens("edge"), TOKEN);
    assert_eq!(limiter.get_remaining_tokens("new"), TOKEN);
    limiter.cleanup_expired_buckets();
    assert_eq!(limiter.get_remaining_tokens("edge"), TOKEN);
    assert_eq!(limiter.get_remaining_tokens("new"), TOKEN);
}

#[test]
fn default_config_allows_ten_in_a_burst() {
    let config = RateLimitConfig::default();
    assert_eq!(config.requests_per_second, 100);
    assert_eq!(config.burst_size, 10);
    assert_eq!(config.window_size_ms, 1000);
}

#[test]
fn bucket_on_its_own() {
    let mut bucket = TokenBucket::new(5 * TOKEN, 2, 0);
    assert_eq!(bucket.available_tokens(), 5 * TOKEN);
    assert!(bucket.try_consume(5 * TOKEN, 0));
    assert!(!bucket.try_consume(1, 0));
    bucket.refill(500 * MILLI);
    assert_eq!(bucket.available_tokens(), TOKEN);
    assert_eq!(bucket.last_refill(), 500 * MILLI);
    bucket.refill(400 * MILLI);
    assert_eq!(bucket.available_tokens(), TOKEN);
    assert_eq!(bucket.last_refill(), 400 * MILLI);
}
