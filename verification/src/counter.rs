//! The per-key fixed-window admission algorithm.
//!
//! A [`WindowCounter`] records how many requests were admitted since the
//! window it tracks began. One check against the counter either admits the
//! request and charges it to the quota, or rejects it without mutating any
//! state. The window resets entirely once more than a full window has
//! elapsed since it began; a burst straddling a window boundary may
//! therefore see up to twice the quota. That is the documented trade of a
//! fixed window: O(1) memory per key instead of a per-event log.

use vstd::prelude::*;

verus! {

/// Per-key state: the instant the current window began and the number of
/// requests admitted since then. Instants are milliseconds on the caller's
/// clock (the library never reads a clock itself).
#[derive(Clone, Copy, Debug, PartialEq, Eq, Structural)]
pub struct WindowCounter {
    /// Instant at which the current window began, in milliseconds.
    pub window_start: u64,
    /// Requests admitted since `window_start`.
    pub count: u32,
}

/// Result of one admission check.
#[derive(Clone, Copy, Debug, PartialEq, Eq, Structural)]
pub enum Outcome {
    /// The request is within quota.
    Admitted {
        /// How many further requests the current window will admit.
        remaining: u32,
        /// Instant at which the current window resets, in milliseconds.
        reset_at: u64,
    },
    /// The request is over quota and was not charged to any state.
    Rejected {
        /// How long until a retry can be admitted, in milliseconds.
        retry_after: u64,
        /// The configured quota, for response metadata.
        limit: u32,
        /// Instant at which the current window resets, in milliseconds.
        reset_at: u64,
    },
}

impl Outcome {
    /// The reset instant carried by either variant.
    pub open spec fn spec_reset_at(self) -> u64 {
        match self {
            Outcome::Admitted { reset_at, .. } => reset_at,
            Outcome::Rejected { reset_at, .. } => reset_at,
        }
    }
}

/// Time elapsed from `start` to `now`, saturating at zero so that a caller
/// whose clock steps backwards still gets a well-defined (in-window) answer.
pub open spec fn spec_elapsed(start: u64, now: u64) -> int {
    if now >= start {
        now - start
    } else {
        0
    }
}

/// The counter state after one check at `now`, starting from `prior`
/// (`None` when the key has never been seen).
///
/// With a quota of zero every request is rejected unconditionally and no
/// state is recorded. Otherwise: an unseen key starts a fresh window charged
/// with this request; a window older than `window` resets the same way; a
/// full window rejects without mutating; and an in-window check below quota
/// increments the count.
pub open spec fn spec_counter_after(
    prior: Option<WindowCounter>,
    max_requests: u32,
    window: u64,
    now: u64,
) -> Option<WindowCounter> {
    if max_requests == 0 {
        prior
    } else {
        match prior {
            None => Some(WindowCounter { window_start: now, count: 1 }),
            Some(c) => {
                if spec_elapsed(c.window_start, now) > window {
                    Some(WindowCounter { window_start: now, count: 1 })
                } else if c.count >= max_requests {
                    Some(c)
                } else {
                    Some(WindowCounter { window_start: c.window_start, count: (c.count + 1) as u32 })
                }
            },
        }
    }
}

/// The outcome of one check at `now`, starting from `prior`. Mirrors the
/// branches of [`spec_counter_after`]: a rejection reports how far the
/// window still reaches; an admission reports the quota left in it.
pub open spec fn spec_outcome(
    prior: Option<WindowCounter>,
    max_requests: u32,
    window: u64,
    now: u64,
) -> Outcome {
    if max_requests == 0 {
        Outcome::Rejected { retry_after: window, limit: 0, reset_at: (now + window) as u64 }
    } else {
        match prior {
            None => Outcome::Admitted {
                remaining: (max_requests - 1) as u32,
                reset_at: (now + window) as u64,
            },
            Some(c) => {
                if spec_elapsed(c.window_start, now) > window {
                    Outcome::Admitted {
                        remaining: (max_requests - 1) as u32,
                        reset_at: (now + window) as u64,
                    }
                } else if c.count >= max_requests {
                    Outcome::Rejected {
                        retry_after: (window - spec_elapsed(c.window_start, now)) as u64,
                        limit: max_requests,
                        reset_at: (c.window_start + window) as u64,
                    }
                } else {
                    Outcome::Admitted {
                        remaining: (max_requests - (c.count + 1)) as u32,
                        reset_at: (c.window_start + window) as u64,
                    }
                }
            },
        }
    }
}

/// The counter state reached by running one check per entry of `times`, in
/// order, starting from `prior`.
pub open spec fn state_after_checks(
    prior: Option<WindowCounter>,
    max_requests: u32,
    window: u64,
    times: Seq<u64>,
) -> Option<WindowCounter>
    decreases times.len(),
{
    if times.len() == 0 {
        prior
    } else {
        spec_counter_after(
            state_after_checks(prior, max_requests, window, times.drop_last()),
            max_requests,
            window,
            times.last(),
        )
    }
}

/// How many of the checks at `times`, run in order from `prior`, are admitted.
pub open spec fn count_admitted(
    prior: Option<WindowCounter>,
    max_requests: u32,
    window: u64,
    times: Seq<u64>,
) -> int
    decreases times.len(),
{
    if times.len() == 0 {
        0int
    } else {
        count_admitted(prior, max_requests, window, times.drop_last()) + (
        if spec_outcome(
            state_after_checks(prior, max_requests, window, times.drop_last()),
            max_requests,
            window,
            times.last(),
        ) is Admitted {
            1int
        } else {
            0int
        })
    }
}

/// The smaller of a sequence length and a quota, as the count a window holds.
pub open spec fn spec_capped(n: nat, max_requests: u32) -> u32 {
    if n <= max_requests {
        n as u32
    } else {
        max_requests
    }
}

/// After `k >= 1` checks that all fall within one window of the first, the
/// key's window still starts at the first check's instant and holds the
/// smaller of `k` and the quota.
proof fn lemma_state_in_window(max_requests: u32, window: u64, times: Seq<u64>)
    requires
        max_requests >= 1,
        times.len() >= 1,
        forall|j: int| 0 <= j < times.len() ==> #[trigger] times[j] <= times[0] + window,
    ensures
        state_after_checks(None, max_requests, window, times) == Some(
            WindowCounter { window_start: times[0], count: spec_capped(times.len(), max_requests) },
        ),
    decreases times.len(),
{
    if times.len() == 1 {
        assert(times.drop_last().len() == 0);
    } else {
        let prefix = times.drop_last();
        assert(forall|j: int| 0 <= j < prefix.len() ==> #[trigger] prefix[j] == times[j]);
        lemma_state_in_window(max_requests, window, prefix);
        assert(spec_elapsed(times[0], times.last()) <= window);
    }
}

/// A single key checked repeatedly within one window is admitted exactly
/// `max_requests` times, with `remaining` counting down from
/// `max_requests - 1` to zero, and every later check in that window is
/// rejected. The `i`-th check sees the outcome this lemma gives, whatever
/// instants the checks happen at, as long as each stays within one window
/// of the first.
pub proof fn lemma_single_key_quota(max_requests: u32, window: u64, times: Seq<u64>, i: int)
    requires
        max_requests >= 1,
        0 <= i < times.len(),
        forall|j: int| 0 <= j < times.len() ==> #[trigger] times[j] <= times[0] + window,
        times[0] + window <= u64::MAX,
    ensures
        i < max_requests ==> spec_outcome(
            state_after_checks(None, max_requests, window, times.take(i)),
            max_requests,
            window,
            times[i],
        ) == (Outcome::Admitted {
            remaining: (max_requests - 1 - i) as u32,
            reset_at: (times[0] + window) as u64,
        }),
        i >= max_requests ==> spec_outcome(
            state_after_checks(None, max_requests, window, times.take(i)),
            max_requests,
            window,
            times[i],
        ) == (Outcome::Rejected {
            retry_after: (window - spec_elapsed(times[0], times[i])) as u64,
            limit: max_requests,
            reset_at: (times[0] + window) as u64,
        }),
{
    if i == 0 {
        assert(times.take(0).len() == 0);
    } else {
        let prefix = times.take(i);
        assert(forall|j: int| 0 <= j < prefix.len() ==> #[trigger] prefix[j] == times[j]);
        lemma_state_in_window(max_requests, window, prefix);
        assert(spec_elapsed(times[0], times[i]) <= window);
    }
}

/// Exactly `min(C, max_requests)` of `C` checks within one window are
/// admitted, whatever order their instants come in: under quota `N < C`,
/// exactly `N` admissions and `C - N` rejections, with no double admission
/// and none lost. Concurrent checks on one key are serialized, so each
/// interleaving is some such sequence.
pub proof fn lemma_concurrent_quota(max_requests: u32, window: u64, times: Seq<u64>)
    requires
        max_requests >= 1,
        forall|j: int| 0 <= j < times.len() ==> #[trigger] times[j] <= times[0] + window,
    ensures
        count_admitted(None, max_requests, window, times) == if times.len() <= max_requests {
            times.len() as int
        } else {
            max_requests as int
        },
    decreases times.len(),
{
    if times.len() == 0 {
    } else {
        let prefix = times.drop_last();
        assert(forall|j: int| 0 <= j < prefix.len() ==> #[trigger] prefix[j] == times[j]);
        lemma_concurrent_quota(max_requests, window, prefix);
        if prefix.len() >= 1 {
            lemma_state_in_window(max_requests, window, prefix);
            assert(spec_elapsed(times[0], times.last()) <= window);
        }
    }
}

/// Once more than a full window has elapsed, the next check behaves exactly
/// as if the key had never been seen: the window resets entirely, and an
/// admission carries the full quota less this one request.
pub proof fn lemma_window_reset(c: WindowCounter, max_requests: u32, window: u64, now: u64)
    requires
        max_requests >= 1,
        spec_elapsed(c.window_start, now) > window,
    ensures
        spec_outcome(Some(c), max_requests, window, now) == spec_outcome(
            None,
            max_requests,
            window,
            now,
        ),
        spec_counter_after(Some(c), max_requests, window, now) == spec_counter_after(
            None,
            max_requests,
            window,
            now,
        ),
        spec_outcome(Some(c), max_requests, window, now) == (Outcome::Admitted {
            remaining: (max_requests - 1) as u32,
            reset_at: (now + window) as u64,
        }),
{
}

/// A rejection's `retry_after` never exceeds the window, and is strictly
/// positive whenever the rejection does not fall on the very last instant
/// of its window.
pub proof fn lemma_retry_after_bounds(
    prior: Option<WindowCounter>,
    max_requests: u32,
    window: u64,
    now: u64,
)
    requires
        window >= 1,
        spec_outcome(prior, max_requests, window, now) is Rejected,
    ensures
        spec_outcome(prior, max_requests, window, now)->retry_after <= window,
        (prior matches Some(c) ==> spec_elapsed(c.window_start, now) < window)
            ==> spec_outcome(prior, max_requests, window, now)->retry_after > 0,
{
}

impl WindowCounter {
    /// A fresh window beginning at `now`, charged with the request that
    /// created it.
    pub fn new(now: u64) -> (c: Self)
        ensures
            c == (WindowCounter { window_start: now, count: 1 }),
    {
        WindowCounter { window_start: now, count: 1 }
    }

    /// One admission check at `now`. Mutates the counter exactly as
    /// [`spec_counter_after`] describes and returns the matching
    /// [`spec_outcome`].
    pub fn check(&mut self, max_requests: u32, window: u64, now: u64) -> (o: Outcome)
        requires
            old(self).window_start + window <= u64::MAX,
            now + window <= u64::MAX,
        ensures
            Some(*final(self)) == spec_counter_after(Some(*old(self)), max_requests, window, now),
            o == spec_outcome(Some(*old(self)), max_requests, window, now),
    {
        if max_requests == 0 {
            Outcome::Rejected { retry_after: window, limit: 0, reset_at: now + window }
        } else {
            let elapsed: u64 = if now >= self.window_start {
                now - self.window_start
            } else {
                0
            };
            if elapsed > window {
                self.window_start = now;
                self.count = 1;
                Outcome::Admitted { remaining: max_requests - 1, reset_at: now + window }
            } else if self.count >= max_requests {
                Outcome::Rejected {
                    retry_after: window - elapsed,
                    limit: max_requests,
                    reset_at: self.window_start + window,
                }
            } else {
                self.count = self.count + 1;
                Outcome::Admitted {
                    remaining: max_requests - self.count,
                    reset_at: self.window_start + window,
                }
            }
        }
    }
}

} // verus!
