//! Retry and reset metadata: the read-only projection of an [`Outcome`] into
//! the values a throttling response carries, and the validity check a header
//! value must pass before it goes on the wire.
//!
//! Rendering never touches rate-limit state. The retry timing is rendered
//! either as a decimal count of whole seconds or as an HTTP-date; the latter
//! comes from chrono and is the one trusted call of this crate.

use vstd::prelude::*;
use vstd::string::StrSliceExecFns;
use vstd::string::StringExecFns;

use crate::config::RateLimitConfig;
use crate::config::RetryAfterFormat;
use crate::counter::Outcome;

verus! {

/// Largest epoch second whose calendar date still has a four-digit year
/// (the last second of year 9999), the bound up to which an HTTP-date can
/// be rendered.
pub const MAX_EPOCH_SECS: i64 = 253_402_300_799;

/// The decimal digit `d`, as a character.
pub open spec fn spec_digit_char(d: int) -> char {
    if d == 0 {
        '0'
    } else if d == 1 {
        '1'
    } else if d == 2 {
        '2'
    } else if d == 3 {
        '3'
    } else if d == 4 {
        '4'
    } else if d == 5 {
        '5'
    } else if d == 6 {
        '6'
    } else if d == 7 {
        '7'
    } else if d == 8 {
        '8'
    } else {
        '9'
    }
}

/// The value of a decimal digit character; ten marks a non-digit.
pub open spec fn spec_digit_val(c: char) -> int {
    if c == '0' {
        0
    } else if c == '1' {
        1
    } else if c == '2' {
        2
    } else if c == '3' {
        3
    } else if c == '4' {
        4
    } else if c == '5' {
        5
    } else if c == '6' {
        6
    } else if c == '7' {
        7
    } else if c == '8' {
        8
    } else if c == '9' {
        9
    } else {
        10
    }
}

/// Whether `c` is a decimal digit.
pub open spec fn spec_is_digit(c: char) -> bool {
    spec_digit_val(c) < 10
}

/// The usual decimal rendering of `n`: no sign, no leading zeros (except for
/// zero itself).
pub open spec fn spec_decimal(n: nat) -> Seq<char>
    decreases n,
{
    if n < 10 {
        seq![spec_digit_char(n as int)]
    } else {
        spec_decimal(n / 10).push(spec_digit_char((n % 10) as int))
    }
}

/// The decimal rendering of a signed value: a minus sign before the
/// magnitude when negative.
pub open spec fn spec_signed_decimal(v: int) -> Seq<char> {
    if v >= 0 {
        spec_decimal(v as nat)
    } else {
        seq!['-'] + spec_decimal((-v) as nat)
    }
}

/// Reading a digit string back, most significant digit first.
pub open spec fn spec_parse_decimal(s: Seq<char>) -> nat
    decreases s.len(),
{
    if s.len() == 0 {
        0
    } else {
        (spec_parse_decimal(s.drop_last()) * 10 + spec_digit_val(s.last())) as nat
    }
}

/// The `Seconds` rendering always reads back as the non-negative integer it
/// was rendered from: it is never empty, holds decimal digits only, and
/// parsing it returns exactly the rendered value.
pub proof fn lemma_decimal_parses(n: nat)
    ensures
        spec_decimal(n).len() >= 1,
        forall|i: int| 0 <= i < spec_decimal(n).len() ==> spec_is_digit(#[trigger] spec_decimal(n)[i]),
        spec_parse_decimal(spec_decimal(n)) == n,
    decreases n,
{
    if n < 10 {
        assert(spec_digit_val(spec_digit_char(n as int)) == n);
        assert(spec_decimal(n).drop_last().len() == 0);
        assert(spec_parse_decimal(spec_decimal(n).drop_last()) == 0);
        assert(spec_decimal(n).last() == spec_digit_char(n as int));
        assert(spec_parse_decimal(spec_decimal(n)) == n);
    } else {
        lemma_decimal_parses(n / 10);
        assert(spec_decimal(n).drop_last() =~= spec_decimal(n / 10));
        assert(spec_decimal(n).last() == spec_digit_char((n % 10) as int));
        assert(spec_digit_val(spec_digit_char((n % 10) as int)) == n % 10);
        assert(n / 10 * 10 + n % 10 == n) by (nonlinear_arith);
        assert(spec_parse_decimal(spec_decimal(n)) == spec_parse_decimal(spec_decimal(n / 10)) * 10
            + n % 10);
    }
}

/// The digit `d`, as a one-character string slice.
fn digit_str(d: u64) -> (r: &'static str)
    requires
        d < 10,
    ensures
        r@ == seq![spec_digit_char(d as int)],
{
    proof {
        reveal_strlit("0");
        reveal_strlit("1");
        reveal_strlit("2");
        reveal_strlit("3");
        reveal_strlit("4");
        reveal_strlit("5");
        reveal_strlit("6");
        reveal_strlit("7");
        reveal_strlit("8");
        reveal_strlit("9");
    }
    let r = if d == 0 {
        "0"
    } else if d == 1 {
        "1"
    } else if d == 2 {
        "2"
    } else if d == 3 {
        "3"
    } else if d == 4 {
        "4"
    } else if d == 5 {
        "5"
    } else if d == 6 {
        "6"
    } else if d == 7 {
        "7"
    } else if d == 8 {
        "8"
    } else {
        "9"
    };
    proof {
        assert(r@ =~= seq![spec_digit_char(d as int)]);
    }
    r
}

/// Renders `n` in decimal.
pub fn u64_to_decimal(n: u64) -> (s: String)
    ensures
        s@ == spec_decimal(n as nat),
    decreases n,
{
    if n < 10 {
        digit_str(n).to_owned()
    } else {
        let mut s = u64_to_decimal(n / 10);
        s.append(digit_str(n % 10));
        proof {
            assert(s@ =~= spec_decimal(n as nat));
        }
        s
    }
}

/// Renders `v` in decimal, with a minus sign when negative.
pub fn i64_to_decimal(v: i64) -> (s: String)
    ensures
        s@ == spec_signed_decimal(v as int),
{
    if v >= 0 {
        u64_to_decimal(v as u64)
    } else {
        // -(v + 1) avoids the overflow of negating i64::MIN directly.
        let magnitude: u64 = (-(v + 1)) as u64 + 1;
        let mut s: String = "-".to_owned();
        let digits = u64_to_decimal(magnitude);
        s.append(digits.as_str());
        proof {
            reveal_strlit("-");
            assert(s@ =~= spec_signed_decimal(v as int));
        }
        s
    }
}

/// The name of what chrono's RFC 2822 rendering returns for an epoch-second
/// timestamp; a fixed calendar function of the timestamp alone.
pub uninterp spec fn rfc2822_of(epoch_secs: int) -> Seq<char>;

/// Relies on chrono's `DateTime::<Utc>::from_timestamp` (`Some` for every
/// timestamp between the epoch and the end of year 9999) and
/// `DateTime::to_rfc2822` (an RFC 2822 date string, a function of the UTC
/// timestamp alone; it cannot panic while the year has at most four digits).
#[verifier::external_body]
fn rfc2822_from_epoch(epoch_secs: i64) -> (r: String)
    requires
        0 <= epoch_secs <= MAX_EPOCH_SECS,
    ensures
        r@ == rfc2822_of(epoch_secs as int),
{
    match chrono::DateTime::<chrono::Utc>::from_timestamp(epoch_secs, 0) {
        Some(dt) => dt.to_rfc2822(),
        None => String::new(),
    }
}

/// Rate-limit status of one request, as a response carries it: the rendered
/// retry-after value and the three numeric header values.
#[derive(Clone, Debug)]
pub struct RateLimitInfo {
    /// Retry-After value, rendered according to `retry_after_format`.
    pub retry_after: String,
    /// Maximum requests allowed in the window.
    pub limit: u32,
    /// Remaining requests in the current window.
    pub remaining: u32,
    /// Epoch second at which the rate limit resets.
    pub reset_timestamp: i64,
    /// Format used for the `retry_after` value.
    pub retry_after_format: RetryAfterFormat,
}

/// A rejection, with everything a "too many requests" response needs.
#[derive(Clone, Copy, Debug)]
pub struct RateLimitRejection {
    /// Milliseconds until the client may retry.
    pub retry_after: u64,
    /// Maximum requests allowed in the window.
    pub limit: u32,
    /// Epoch second at which the rate limit resets.
    pub reset_time: i64,
    /// Format to use for the Retry-After value.
    pub retry_after_format: RetryAfterFormat,
}

/// Errors of the metadata-formatting step.
#[derive(Clone, Debug, PartialEq, Eq)]
pub enum RateLimitError {
    /// A rendered value is not fit for wire transmission as a header value;
    /// carries the offending value.
    HeaderError(String),
    /// Any other formatting failure, described in words.
    Other(String),
}

/// Whether `c` may appear in an HTTP header value: horizontal tab or any
/// character other than the ASCII control characters. Multi-byte characters
/// encode to bytes that are always acceptable, so the check is per character.
pub open spec fn spec_valid_header_char(c: char) -> bool {
    c == '\t' || (' ' <= c && c != '\u{7f}')
}

/// Whether every character of `s` may appear in an HTTP header value.
pub open spec fn spec_valid_header_value(s: Seq<char>) -> bool {
    forall|i: int| 0 <= i < s.len() ==> spec_valid_header_char(#[trigger] s[i])
}

/// Whether `s` is fit for wire transmission as an HTTP header value.
pub fn is_valid_header_value(s: &str) -> (b: bool)
    ensures
        b == spec_valid_header_value(s@),
{
    let n = s.unicode_len();
    let mut i: usize = 0;
    while i < n
        invariant
            i <= n,
            n == s@.len(),
            forall|j: int| 0 <= j < i ==> spec_valid_header_char(#[trigger] s@[j]),
        decreases n - i,
    {
        let c = s.get_char(i);
        if !(c == '\t' || (c >= ' ' && c != '\u{7f}')) {
            return false;
        }
        i += 1;
    }
    true
}

/// How a [`RateLimitInfo`] relates to the outcome and configuration it was
/// rendered from: the three numeric values are taken over unchanged (a
/// rejection leaves no remaining quota), the reset instant is projected to
/// epoch seconds, and the retry-after value renders, per the configured
/// format, either the whole seconds until retry (the full window, for an
/// admission) or the reset instant as an HTTP-date.
pub open spec fn spec_info_matches(info: RateLimitInfo, o: Outcome, config: RateLimitConfig) -> bool {
    &&& info.limit == (match o {
        Outcome::Admitted { .. } => config.max_requests,
        Outcome::Rejected { limit, .. } => limit,
    })
    &&& info.remaining == (match o {
        Outcome::Admitted { remaining, .. } => remaining,
        Outcome::Rejected { .. } => 0u32,
    })
    &&& info.reset_timestamp == o.spec_reset_at() / 1000
    &&& info.retry_after_format == config.retry_after_format
    &&& (config.retry_after_format is Seconds ==> info.retry_after@ == spec_decimal(
        (match o {
            Outcome::Admitted { .. } => config.window_millis / 1000,
            Outcome::Rejected { retry_after, .. } => retry_after / 1000,
        }) as nat,
    ))
    &&& (config.retry_after_format is HttpDate ==> info.retry_after@ == rfc2822_of(
        o.spec_reset_at() as int / 1000,
    ))
}

/// How a [`RateLimitRejection`] relates to the rejecting outcome it carries:
/// retry timing and limit unchanged, the reset instant projected to epoch
/// seconds, and the configured rendering format recorded for later use.
pub open spec fn spec_rejection_matches(
    rej: RateLimitRejection,
    o: Outcome,
    config: RateLimitConfig,
) -> bool {
    &&& o is Rejected
    &&& rej.retry_after == o->Rejected_retry_after
    &&& rej.limit == o->Rejected_limit
    &&& rej.reset_time == o.spec_reset_at() / 1000
    &&& rej.retry_after_format == config.retry_after_format
}

/// Renders an outcome as response metadata, exactly as
/// [`spec_info_matches`] describes. Read-only: no rate-limit state is
/// involved at all.
pub fn format_retry_metadata(o: &Outcome, config: &RateLimitConfig) -> (info: RateLimitInfo)
    requires
        o.spec_reset_at() / 1000 <= MAX_EPOCH_SECS,
    ensures
        spec_info_matches(info, *o, *config),
{
    let reset_at: u64 = match o {
        Outcome::Admitted { reset_at, .. } => *reset_at,
        Outcome::Rejected { reset_at, .. } => *reset_at,
    };
    let reset_timestamp: i64 = (reset_at / 1000) as i64;
    let retry_after: String = match config.retry_after_format {
        RetryAfterFormat::HttpDate => rfc2822_from_epoch(reset_timestamp),
        RetryAfterFormat::Seconds => {
            let millis: u64 = match o {
                Outcome::Admitted { .. } => config.window_millis,
                Outcome::Rejected { retry_after, .. } => *retry_after,
            };
            u64_to_decimal(millis / 1000)
        },
    };
    let (limit, remaining): (u32, u32) = match o {
        Outcome::Admitted { remaining, .. } => (config.max_requests, *remaining),
        Outcome::Rejected { limit, .. } => (*limit, 0),
    };
    RateLimitInfo {
        retry_after,
        limit,
        remaining,
        reset_timestamp,
        retry_after_format: config.retry_after_format,
    }
}

/// Renders the metadata of a rejection, exactly as a successful check would
/// have been rendered: zero remaining quota, and the retry-after value in
/// the rejection's recorded format.
pub fn get_rate_limit_info(rejection: &RateLimitRejection) -> (info: RateLimitInfo)
    requires
        0 <= rejection.reset_time <= MAX_EPOCH_SECS,
    ensures
        info.limit == rejection.limit,
        info.remaining == 0,
        info.reset_timestamp == rejection.reset_time,
        info.retry_after_format == rejection.retry_after_format,
        rejection.retry_after_format is Seconds ==> info.retry_after@ == spec_decimal(
            (rejection.retry_after / 1000) as nat,
        ),
        rejection.retry_after_format is HttpDate ==> info.retry_after@ == rfc2822_of(
            rejection.reset_time as int,
        ),
{
    let retry_after: String = match rejection.retry_after_format {
        RetryAfterFormat::HttpDate => rfc2822_from_epoch(rejection.reset_time),
        RetryAfterFormat::Seconds => u64_to_decimal(rejection.retry_after / 1000),
    };
    RateLimitInfo {
        retry_after,
        limit: rejection.limit,
        remaining: 0,
        reset_timestamp: rejection.reset_time,
        retry_after_format: rejection.retry_after_format,
    }
}

/// The four conventional rate-limit headers for `info`, as name and value
/// pairs, in response order: Retry-After, then the three X-RateLimit values.
/// Fails, without producing any pair, exactly when the rendered retry-after
/// value is not fit for wire transmission; the numeric values are decimal
/// renderings and always are.
pub fn header_values(info: &RateLimitInfo) -> (r: Result<Vec<(String, String)>, RateLimitError>)
    ensures
        spec_valid_header_value(info.retry_after@) ==> (r matches Ok(v) && v@.len() == 4
            && v@[0].0@ == "Retry-After"@ && v@[0].1@ == info.retry_after@
            && v@[1].0@ == "X-RateLimit-Limit"@ && v@[1].1@ == spec_decimal(info.limit as nat)
            && v@[2].0@ == "X-RateLimit-Remaining"@ && v@[2].1@ == spec_decimal(
            info.remaining as nat,
        ) && v@[3].0@ == "X-RateLimit-Reset"@ && v@[3].1@ == spec_signed_decimal(
            info.reset_timestamp as int,
        )),
        !spec_valid_header_value(info.retry_after@) ==> (r matches Err(e) && e matches
            RateLimitError::HeaderError(s) && s@ == info.retry_after@),
{
    if !is_valid_header_value(info.retry_after.as_str()) {
        return Err(RateLimitError::HeaderError(info.retry_after.clone()));
    }
    let mut v: Vec<(String, String)> = Vec::new();
    v.push(("Retry-After".to_owned(), info.retry_after.clone()));
    v.push(("X-RateLimit-Limit".to_owned(), u64_to_decimal(info.limit as u64)));
    v.push(("X-RateLimit-Remaining".to_owned(), u64_to_decimal(info.remaining as u64)));
    v.push(("X-RateLimit-Reset".to_owned(), i64_to_decimal(info.reset_timestamp)));
    Ok(v)
}

} // verus!
