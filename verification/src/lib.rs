//! In-memory, per-key request rate limiting.
//!
//! A [`RateLimiter`] tracks one counter per client key under a shared
//! [`RateLimitConfig`]. Each check either admits the request, with the
//! remaining quota and the window's reset instant, or rejects it with the
//! retry timing a throttling response needs. The counting policy is chosen
//! once per limiter: a fixed window ([`WindowCounter`], the default) or a
//! strictly sliding one ([`EventLog`]). Retry metadata can be rendered
//! either as an HTTP-date or as a count of seconds.

pub mod config;
pub mod counter;
pub mod format;
pub mod registry;
pub mod sliding;

pub use config::ConfigError;
pub use config::LimitAlgorithm;
pub use config::RateLimitConfig;
pub use config::RetryAfterFormat;
pub use config::MAX_INSTANT_MILLIS;

pub use counter::Outcome;
pub use counter::WindowCounter;

pub use registry::RateLimiter;

pub use sliding::EventLog;

pub use format::RateLimitError;
pub use format::RateLimitInfo;
pub use format::RateLimitRejection;
pub use format::MAX_EPOCH_SECS;

pub use format::format_retry_metadata;
pub use format::get_rate_limit_info;
pub use format::header_values;
pub use format::i64_to_decimal;
pub use format::is_valid_header_value;
pub use format::u64_to_decimal;
