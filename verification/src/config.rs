//! Configuration of a rate limiter: the quota, the window it applies to,
//! and the rendering policy for retry metadata.

use vstd::prelude::*;

verus! {

/// Instants and durations are carried as milliseconds. Rendering a reset
/// instant as a calendar date is only possible up to the end of year 9999,
/// so every instant handled by the limiter stays at or below this bound.
pub const MAX_INSTANT_MILLIS: u64 = 253_402_300_799_999;

/// Format options for the Retry-After header value.
#[derive(Clone, Copy, Debug, PartialEq, Eq, Structural)]
pub enum RetryAfterFormat {
    /// HTTP-date format (RFC 7231 / RFC 2822 date string).
    HttpDate,
    /// Number of whole seconds until retry is permitted.
    Seconds,
}

impl Default for RetryAfterFormat {
    /// The default rendering is the HTTP-date form.
    fn default() -> (r: Self)
        ensures
            r == RetryAfterFormat::HttpDate,
    {
        RetryAfterFormat::HttpDate
    }
}

/// The counting policy a limiter applies per key, chosen once per
/// deployment.
#[derive(Clone, Copy, Debug, PartialEq, Eq, Structural)]
pub enum LimitAlgorithm {
    /// One counter per key that resets entirely when its window elapses:
    /// O(1) memory, but a burst straddling a window boundary may see up to
    /// twice the quota. The default.
    FixedWindow,
    /// One pruned event log per key: a strictly sliding window, at the cost
    /// of O(max_requests) memory per key. The opt-in stricter mode.
    SlidingWindow,
}

impl Default for LimitAlgorithm {
    /// The default policy is the fixed window.
    fn default() -> (a: Self)
        ensures
            a == LimitAlgorithm::FixedWindow,
    {
        LimitAlgorithm::FixedWindow
    }
}

/// Configuration shared by every key tracked by one rate limiter.
#[derive(Clone, Copy, Debug, PartialEq, Eq, Structural)]
pub struct RateLimitConfig {
    /// Maximum number of requests admitted within one window.
    pub max_requests: u32,
    /// Length of the window, in milliseconds.
    pub window_millis: u64,
    /// Rendering policy for retry metadata.
    pub retry_after_format: RetryAfterFormat,
    /// Counting policy applied per key.
    pub algorithm: LimitAlgorithm,
}

/// A configuration rejected at construction time by [`RateLimitConfig::try_new`].
#[derive(Clone, Copy, Debug, PartialEq, Eq, Structural)]
pub enum ConfigError {
    /// A quota of zero would reject every request unconditionally.
    ZeroMaxRequests,
    /// A window of zero length makes the quota meaningless.
    ZeroWindow,
}

impl Default for RateLimitConfig {
    /// The baseline configuration: 60 requests per 60 seconds, HTTP-date retry format.
    fn default() -> (c: Self)
        ensures
            c.max_requests == 60,
            c.window_millis == 60_000,
            c.retry_after_format == RetryAfterFormat::HttpDate,
            c.algorithm == LimitAlgorithm::FixedWindow,
    {
        RateLimitConfig {
            max_requests: 60,
            window_millis: 60_000,
            retry_after_format: RetryAfterFormat::HttpDate,
            algorithm: LimitAlgorithm::FixedWindow,
        }
    }
}

impl RateLimitConfig {
    /// A configuration is well formed when both the quota and the window are positive.
    pub open spec fn wf(self) -> bool {
        self.max_requests >= 1 && self.window_millis >= 1
    }

    /// Builds a configuration of `max` requests per minute, with the default
    /// retry format.
    pub fn max_per_minute(max: u32) -> (c: Self)
        ensures
            c.max_requests == max,
            c.window_millis == 60_000,
            c.retry_after_format == RetryAfterFormat::HttpDate,
            c.algorithm == LimitAlgorithm::FixedWindow,
    {
        RateLimitConfig {
            max_requests: max,
            window_millis: 60_000,
            retry_after_format: RetryAfterFormat::HttpDate,
            algorithm: LimitAlgorithm::FixedWindow,
        }
    }

    /// Builds a configuration of `max_requests` requests per `window_seconds`
    /// seconds, with the default retry format.
    pub fn max_per_window(max_requests: u32, window_seconds: u64) -> (c: Self)
        requires
            window_seconds * 1000 <= u64::MAX,
        ensures
            c.max_requests == max_requests,
            c.window_millis == window_seconds * 1000,
            c.retry_after_format == RetryAfterFormat::HttpDate,
            c.algorithm == LimitAlgorithm::FixedWindow,
    {
        RateLimitConfig {
            max_requests,
            window_millis: window_seconds * 1000,
            retry_after_format: RetryAfterFormat::HttpDate,
            algorithm: LimitAlgorithm::FixedWindow,
        }
    }

    /// Fail-fast constructor: rejects a zero quota or a zero window instead of
    /// letting either produce surprising behaviour at check time.
    pub fn try_new(
        max_requests: u32,
        window_millis: u64,
        retry_after_format: RetryAfterFormat,
    ) -> (r: Result<Self, ConfigError>)
        ensures
            max_requests == 0 ==> r == Err::<Self, ConfigError>(ConfigError::ZeroMaxRequests),
            max_requests >= 1 && window_millis == 0 ==> r == Err::<Self, ConfigError>(
                ConfigError::ZeroWindow,
            ),
            max_requests >= 1 && window_millis >= 1 ==> r == Ok::<Self, ConfigError>(
                RateLimitConfig {
                    max_requests,
                    window_millis,
                    retry_after_format,
                    algorithm: LimitAlgorithm::FixedWindow,
                },
            ),
            r matches Ok(c) ==> c.wf(),
    {
        if max_requests == 0 {
            Err(ConfigError::ZeroMaxRequests)
        } else if window_millis == 0 {
            Err(ConfigError::ZeroWindow)
        } else {
            Ok(
                RateLimitConfig {
                    max_requests,
                    window_millis,
                    retry_after_format,
                    algorithm: LimitAlgorithm::FixedWindow,
                },
            )
        }
    }

    /// The same configuration under another counting policy; the builders
    /// default to the fixed window, this opts into the sliding one.
    pub fn with_algorithm(self, algorithm: LimitAlgorithm) -> (c: Self)
        ensures
            c == (RateLimitConfig { algorithm, ..self }),
    {
        RateLimitConfig { algorithm, ..self }
    }
}

} // verus!
