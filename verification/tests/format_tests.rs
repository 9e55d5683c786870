use chrono::Utc;

use warp_rate_limit::LimitAlgorithm;
use warp_rate_limit::Outcome;
use warp_rate_limit::RateLimitConfig;
use warp_rate_limit::RateLimitError;
use warp_rate_limit::RateLimitInfo;
use warp_rate_limit::RateLimitRejection;
use warp_rate_limit::RateLimiter;
use warp_rate_limit::RetryAfterFormat;
use warp_rate_limit::format_retry_metadata;
use warp_rate_limit::get_rate_limit_info;
use warp_rate_limit::header_values;
use warp_rate_limit::i64_to_decimal;
use warp_rate_limit::is_valid_header_value;
use warp_rate_limit::u64_to_decimal;

#[test]
fn test_rate_limit_info_extraction() {
    let now = Utc::now();
    let rejection = RateLimitRejection {
        retry_after: 60 * 1000,
        limit: 100,
        reset_time: now.timestamp(),
        retry_after_format: RetryAfterFormat::Seconds,
    };

    let info = get_rate_limit_info(&rejection);

    assert_eq!(info.limit, 100);
    assert_eq!(info.remaining, 0);
    assert_eq!(info.reset_timestamp, now.timestamp());
    assert_eq!(info.retry_after, "60");

    // Test with HttpDate format
    let rejection_http = RateLimitRejection {
        retry_after: 60 * 1000,
        limit: 100,
        reset_time: now.timestamp(),
        retry_after_format: RetryAfterFormat::HttpDate,
    };

    let info_http = get_rate_limit_info(&rejection_http);
    assert!(!info_http.retry_after.is_empty()); // RFC2822 date format
}

#[test]
fn test_invalid_header_value_handling() {
    let invalid_info = RateLimitInfo {
        retry_after: "invalid\u{0000}characters".to_string(),
        limit: 100,
        remaining: 50,
        reset_timestamp: 1234567890,
        retry_after_format: RetryAfterFormat::Seconds,
    };

    let result = header_values(&invalid_info);
    assert!(matches!(result, Err(RateLimitError::HeaderError(_))));
}

/// The Seconds rendering always parses back as a non-negative integer, and
/// the HttpDate rendering always parses as a calendar timestamp no earlier
/// than the moment of rejection.
#[test]
fn test_retry_after_formats() {
    let now_millis = Utc::now().timestamp_millis() as u64;

    // Seconds format: bounded by the window, parses as an integer.
    let mut seconds_limiter = RateLimiter::new(RateLimitConfig {
        max_requests: 1,
        window_millis: 5_000,
        retry_after_format: RetryAfterFormat::Seconds,
        algorithm: LimitAlgorithm::FixedWindow,
    });
    seconds_limiter.check_rate_limit("127.0.0.2", now_millis).expect("first request admitted");
    let rejection = seconds_limiter
        .check_rate_limit("127.0.0.2", now_millis + 1)
        .expect_err("second request rejected");
    let info = get_rate_limit_info(&rejection);
    let secs: u64 = info.retry_after.parse().expect("Seconds format parses as an integer");
    assert!(secs <= 5);

    // HttpDate format: a valid RFC 2822 date, not earlier than the rejection.
    let mut date_limiter = RateLimiter::new(RateLimitConfig {
        max_requests: 1,
        window_millis: 15_000,
        retry_after_format: RetryAfterFormat::HttpDate,
        algorithm: LimitAlgorithm::FixedWindow,
    });
    date_limiter.check_rate_limit("127.0.0.1", now_millis).expect("first request admitted");
    let rejection = date_limiter
        .check_rate_limit("127.0.0.1", now_millis + 1)
        .expect_err("second request rejected");
    let info = get_rate_limit_info(&rejection);
    let parsed = chrono::DateTime::parse_from_rfc2822(&info.retry_after)
        .expect("HttpDate format parses as a calendar timestamp");
    assert!(parsed.timestamp() >= now_millis as i64 / 1000);
    assert_eq!(parsed.timestamp(), info.reset_timestamp);
}

#[test]
fn test_format_retry_metadata_admitted() {
    let config = RateLimitConfig {
        max_requests: 10,
        window_millis: 60_000,
        retry_after_format: RetryAfterFormat::Seconds,
        algorithm: LimitAlgorithm::FixedWindow,
    };
    let outcome = Outcome::Admitted { remaining: 7, reset_at: 90_000 };
    let info = format_retry_metadata(&outcome, &config);
    assert_eq!(info.limit, 10);
    assert_eq!(info.remaining, 7);
    assert_eq!(info.reset_timestamp, 90);
    assert_eq!(info.retry_after, "60");
    assert_eq!(info.retry_after_format, RetryAfterFormat::Seconds);
}

#[test]
fn test_format_retry_metadata_rejected() {
    let config = RateLimitConfig {
        max_requests: 10,
        window_millis: 60_000,
        retry_after_format: RetryAfterFormat::Seconds,
        algorithm: LimitAlgorithm::FixedWindow,
    };
    let outcome = Outcome::Rejected { retry_after: 12_345, limit: 10, reset_at: 90_000 };
    let info = format_retry_metadata(&outcome, &config);
    assert_eq!(info.limit, 10);
    assert_eq!(info.remaining, 0);
    assert_eq!(info.reset_timestamp, 90);
    assert_eq!(info.retry_after, "12");
}

#[test]
fn test_format_retry_metadata_http_date() {
    let config = RateLimitConfig {
        max_requests: 3,
        window_millis: 60_000,
        retry_after_format: RetryAfterFormat::HttpDate,
        algorithm: LimitAlgorithm::FixedWindow,
    };
    // 2009-02-13 23:31:30 UTC.
    let outcome = Outcome::Admitted { remaining: 2, reset_at: 1_234_567_890_000 };
    let info = format_retry_metadata(&outcome, &config);
    assert_eq!(info.reset_timestamp, 1_234_567_890);
    let parsed = chrono::DateTime::parse_from_rfc2822(&info.retry_after)
        .expect("HttpDate format parses as a calendar timestamp");
    assert_eq!(parsed.timestamp(), 1_234_567_890);
    assert_eq!(info.retry_after, "Fri, 13 Feb 2009 23:31:30 +0000");
}

#[test]
fn test_header_values_exact() {
    let info = RateLimitInfo {
        retry_after: "60".to_string(),
        limit: 100,
        remaining: 42,
        reset_timestamp: 1234567890,
        retry_after_format: RetryAfterFormat::Seconds,
    };
    let pairs = header_values(&info).expect("valid values produce headers");
    assert_eq!(pairs.len(), 4);
    assert_eq!(pairs[0], ("Retry-After".to_string(), "60".to_string()));
    assert_eq!(pairs[1], ("X-RateLimit-Limit".to_string(), "100".to_string()));
    assert_eq!(pairs[2], ("X-RateLimit-Remaining".to_string(), "42".to_string()));
    assert_eq!(pairs[3], ("X-RateLimit-Reset".to_string(), "1234567890".to_string()));
}

#[test]
fn test_decimal_rendering() {
    assert_eq!(u64_to_decimal(0), "0");
    assert_eq!(u64_to_decimal(7), "7");
    assert_eq!(u64_to_decimal(60), "60");
    assert_eq!(u64_to_decimal(1234567890), "1234567890");
    assert_eq!(u64_to_decimal(u64::MAX), "18446744073709551615");
    assert_eq!(i64_to_decimal(0), "0");
    assert_eq!(i64_to_decimal(-5), "-5");
    assert_eq!(i64_to_decimal(i64::MIN), "-9223372036854775808");
    assert_eq!(i64_to_decimal(i64::MAX), "9223372036854775807");
}

#[test]
fn test_header_value_validity() {
    assert!(is_valid_header_value("60"));
    assert!(is_valid_header_value("Fri, 13 Feb 2009 23:31:30 +0000"));
    assert!(is_valid_header_value(""));
    assert!(is_valid_header_value("tab\tseparated"));
    assert!(!is_valid_header_value("line\nbreak"));
    assert!(!is_valid_header_value("nul\u{0000}byte"));
    assert!(!is_valid_header_value("del\u{007f}char"));
}
