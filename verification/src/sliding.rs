//! The per-key sliding-window admission algorithm, the stricter alternative
//! to the fixed window of [`crate::counter`].
//!
//! An [`EventLog`] records the instant of every admitted request still
//! within one window of "now". Each check first prunes the log, dropping
//! every instant more than a full window old; a request is admitted, and
//! recorded, exactly when fewer than the quota remain. Memory cost is
//! O(max_requests) per key instead of O(1): the price of a window that
//! slides instead of resetting at a boundary.

use vstd::prelude::*;

use crate::counter::Outcome;
use crate::counter::spec_elapsed;

verus! {

/// The retained part of `events` at `now`: every instant at most one window
/// old, in recorded order.
pub open spec fn spec_pruned(events: Seq<u64>, window: u64, now: u64) -> Seq<u64>
    decreases events.len(),
{
    if events.len() == 0 {
        events
    } else {
        let rest = spec_pruned(events.drop_last(), window, now);
        if spec_elapsed(events.last(), now) <= window {
            rest.push(events.last())
        } else {
            rest
        }
    }
}

/// The log after one check at `now`: pruned, and extended by `now` exactly
/// when the check is admitted. With a quota of zero nothing is touched at
/// all.
pub open spec fn spec_log_after(events: Seq<u64>, max_requests: u32, window: u64, now: u64) -> Seq<
    u64,
> {
    if max_requests == 0 {
        events
    } else {
        let kept = spec_pruned(events, window, now);
        if kept.len() >= max_requests {
            kept
        } else {
            kept.push(now)
        }
    }
}

/// The outcome of one sliding-window check at `now`. A rejection reports how
/// long until the first retained instant — the oldest, under a monotone
/// clock — falls out of the window; an admission reports the quota left
/// after recording this request. Either way the reset instant is one window
/// after the first retained instant.
pub open spec fn spec_sliding_outcome(
    events: Seq<u64>,
    max_requests: u32,
    window: u64,
    now: u64,
) -> Outcome {
    if max_requests == 0 {
        Outcome::Rejected { retry_after: window, limit: 0, reset_at: (now + window) as u64 }
    } else {
        let kept = spec_pruned(events, window, now);
        if kept.len() >= max_requests {
            Outcome::Rejected {
                retry_after: (window - spec_elapsed(kept[0], now)) as u64,
                limit: max_requests,
                reset_at: (kept[0] + window) as u64,
            }
        } else {
            Outcome::Admitted {
                remaining: (max_requests - (kept.len() + 1)) as u32,
                reset_at: ((if kept.len() == 0 {
                    now
                } else {
                    kept[0]
                }) + window) as u64,
            }
        }
    }
}

/// Every retained instant is one of the recorded ones and is at most one
/// window old.
pub proof fn lemma_pruned_elements(events: Seq<u64>, window: u64, now: u64)
    ensures
        spec_pruned(events, window, now).len() <= events.len(),
        forall|i: int|
            0 <= i < spec_pruned(events, window, now).len() ==> events.contains(
                #[trigger] spec_pruned(events, window, now)[i],
            ) && spec_elapsed(spec_pruned(events, window, now)[i], now) <= window,
    decreases events.len(),
{
    if events.len() > 0 {
        lemma_pruned_elements(events.drop_last(), window, now);
        assert(forall|i: int|
            0 <= i < events.drop_last().len() ==> events.contains(#[trigger] events.drop_last()[i]));
        assert(events.contains(events.last()));
    }
}

/// Pruning keeps everything when every recorded instant is still within the
/// window.
pub proof fn lemma_pruned_keeps_all(events: Seq<u64>, window: u64, now: u64)
    requires
        forall|i: int|
            0 <= i < events.len() ==> spec_elapsed(#[trigger] events[i], now) <= window,
    ensures
        spec_pruned(events, window, now) == events,
    decreases events.len(),
{
    if events.len() > 0 {
        lemma_pruned_keeps_all(events.drop_last(), window, now);
        assert(spec_pruned(events, window, now) =~= events);
    }
}

/// Pruning drops everything when every recorded instant is more than a full
/// window old — and that stays so at any later instant.
pub proof fn lemma_pruned_drops_all(events: Seq<u64>, window: u64, now: u64, later: u64)
    requires
        spec_pruned(events, window, now).len() == 0,
        now <= later,
    ensures
        spec_pruned(events, window, later).len() == 0,
    decreases events.len(),
{
    if events.len() > 0 {
        assert(spec_elapsed(events.last(), now) > window);
        lemma_pruned_drops_all(events.drop_last(), window, now, later);
    }
}

/// The sliding analogue of a full window reset: once every recorded instant
/// is more than a window old, the next check behaves exactly as if the key
/// had never been seen — admitted with the full quota less this request,
/// and the log starts over with this instant alone.
pub proof fn lemma_sliding_window_reset(events: Seq<u64>, max_requests: u32, window: u64, now: u64)
    requires
        max_requests >= 1,
        forall|i: int| 0 <= i < events.len() ==> spec_elapsed(#[trigger] events[i], now) > window,
    ensures
        spec_sliding_outcome(events, max_requests, window, now) == spec_sliding_outcome(
            Seq::<u64>::empty(),
            max_requests,
            window,
            now,
        ),
        spec_sliding_outcome(events, max_requests, window, now) == (Outcome::Admitted {
            remaining: (max_requests - 1) as u32,
            reset_at: (now + window) as u64,
        }),
        spec_log_after(events, max_requests, window, now) =~= seq![now],
    decreases events.len(),
{
    if events.len() > 0 {
        lemma_sliding_window_reset(events.drop_last(), max_requests, window, now);
    }
}

/// A sliding rejection's `retry_after` never exceeds the window, and is
/// strictly positive whenever the first retained instant is not exactly
/// one full window old.
pub proof fn lemma_sliding_retry_after_bounds(
    events: Seq<u64>,
    max_requests: u32,
    window: u64,
    now: u64,
)
    requires
        window >= 1,
        spec_sliding_outcome(events, max_requests, window, now) is Rejected,
    ensures
        spec_sliding_outcome(events, max_requests, window, now)->retry_after <= window,
        (max_requests >= 1 ==> spec_elapsed(spec_pruned(events, window, now)[0], now) < window)
            ==> spec_sliding_outcome(events, max_requests, window, now)->retry_after > 0,
{
    if max_requests >= 1 {
        lemma_pruned_elements(events, window, now);
    }
}

/// The log reached by running one sliding check per entry of `times`, in
/// order, starting from `events`.
pub open spec fn sliding_state_after_checks(
    events: Seq<u64>,
    max_requests: u32,
    window: u64,
    times: Seq<u64>,
) -> Seq<u64>
    decreases times.len(),
{
    if times.len() == 0 {
        events
    } else {
        spec_log_after(
            sliding_state_after_checks(events, max_requests, window, times.drop_last()),
            max_requests,
            window,
            times.last(),
        )
    }
}

/// How many of the sliding checks at `times`, run in order from `events`,
/// are admitted.
pub open spec fn sliding_count_admitted(
    events: Seq<u64>,
    max_requests: u32,
    window: u64,
    times: Seq<u64>,
) -> int
    decreases times.len(),
{
    if times.len() == 0 {
        0int
    } else {
        sliding_count_admitted(events, max_requests, window, times.drop_last()) + (
        if spec_sliding_outcome(
            sliding_state_after_checks(events, max_requests, window, times.drop_last()),
            max_requests,
            window,
            times.last(),
        ) is Admitted {
            1int
        } else {
            0int
        })
    }
}

/// After `k >= 1` checks that all fall within one window of the first (and
/// none before it), the log holds exactly the instants of the first
/// `min(k, max_requests)` checks.
proof fn lemma_sliding_state_in_window(max_requests: u32, window: u64, times: Seq<u64>)
    requires
        max_requests >= 1,
        times.len() >= 1,
        forall|j: int|
            0 <= j < times.len() ==> times[0] <= #[trigger] times[j] <= times[0] + window,
    ensures
        sliding_state_after_checks(Seq::empty(), max_requests, window, times)
            == times.take(if times.len() <= max_requests { times.len() as int } else { max_requests as int }),
    decreases times.len(),
{
    let cap: int = if times.len() <= max_requests { times.len() as int } else { max_requests as int };
    if times.len() == 1 {
        assert(times.drop_last().len() == 0);
        assert(sliding_state_after_checks(Seq::empty(), max_requests, window, times.drop_last())
            == Seq::<u64>::empty());
        assert(spec_pruned(Seq::<u64>::empty(), window, times.last()) == Seq::<u64>::empty());
        assert(spec_log_after(Seq::<u64>::empty(), max_requests, window, times.last())
            == Seq::<u64>::empty().push(times.last()));
        assert(sliding_state_after_checks(Seq::empty(), max_requests, window, times)
            =~= times.take(1));
    } else {
        let prefix = times.drop_last();
        let now = times.last();
        assert(forall|j: int| 0 <= j < prefix.len() ==> #[trigger] prefix[j] == times[j]);
        lemma_sliding_state_in_window(max_requests, window, prefix);
        let pcap: int = if prefix.len() <= max_requests { prefix.len() as int } else { max_requests as int };
        let log = times.take(pcap);
        assert(prefix.take(pcap) =~= log);
        assert(sliding_state_after_checks(Seq::empty(), max_requests, window, prefix) == log);
        assert(forall|i: int|
            0 <= i < log.len() ==> spec_elapsed(#[trigger] log[i], now) <= window);
        lemma_pruned_keeps_all(log, window, now);
        if pcap < max_requests {
            assert(times.take(pcap).push(times[pcap]) =~= times.take(pcap + 1));
        }
    }
}

/// The sliding analogue of the fixed-window quota law: a single key checked
/// repeatedly within one window is admitted exactly `max_requests` times,
/// with `remaining` counting down from `max_requests - 1` to zero, and every
/// later check in that window is rejected — with exactly the outcomes the
/// fixed window gives on the same instants.
pub proof fn lemma_sliding_single_key_quota(
    max_requests: u32,
    window: u64,
    times: Seq<u64>,
    i: int,
)
    requires
        max_requests >= 1,
        0 <= i < times.len(),
        forall|j: int|
            0 <= j < times.len() ==> times[0] <= #[trigger] times[j] <= times[0] + window,
        times[0] + window <= u64::MAX,
    ensures
        i < max_requests ==> spec_sliding_outcome(
            sliding_state_after_checks(Seq::empty(), max_requests, window, times.take(i)),
            max_requests,
            window,
            times[i],
        ) == (Outcome::Admitted {
            remaining: (max_requests - 1 - i) as u32,
            reset_at: (times[0] + window) as u64,
        }),
        i >= max_requests ==> spec_sliding_outcome(
            sliding_state_after_checks(Seq::empty(), max_requests, window, times.take(i)),
            max_requests,
            window,
            times[i],
        ) == (Outcome::Rejected {
            retry_after: (window - spec_elapsed(times[0], times[i])) as u64,
            limit: max_requests,
            reset_at: (times[0] + window) as u64,
        }),
{
    if i == 0 {
        assert(times.take(0).len() == 0);
        assert(sliding_state_after_checks(Seq::empty(), max_requests, window, times.take(0))
            == Seq::<u64>::empty());
        assert(spec_pruned(Seq::<u64>::empty(), window, times[0]) == Seq::<u64>::empty());
    } else {
        let prefix = times.take(i);
        assert(forall|j: int| 0 <= j < prefix.len() ==> #[trigger] prefix[j] == times[j]);
        lemma_sliding_state_in_window(max_requests, window, prefix);
        let cap: int = if i <= max_requests { i } else { max_requests as int };
        let log = times.take(cap);
        assert(sliding_state_after_checks(Seq::empty(), max_requests, window, prefix) == log);
        assert(forall|j: int|
            0 <= j < log.len() ==> spec_elapsed(#[trigger] log[j], times[i]) <= window);
        lemma_pruned_keeps_all(log, window, times[i]);
        assert(log[0] == times[0]);
        assert(log.len() == cap);
    }
}

/// The sliding analogue of the concurrency quota law: exactly
/// `min(C, max_requests)` of `C` checks within one window are admitted,
/// whatever order their instants come in.
pub proof fn lemma_sliding_concurrent_quota(max_requests: u32, window: u64, times: Seq<u64>)
    requires
        max_requests >= 1,
        forall|j: int|
            0 <= j < times.len() ==> times[0] <= #[trigger] times[j] <= times[0] + window,
    ensures
        sliding_count_admitted(Seq::empty(), max_requests, window, times) == if times.len()
            <= max_requests {
            times.len() as int
        } else {
            max_requests as int
        },
    decreases times.len(),
{
    if times.len() == 0 {
    } else {
        let prefix = times.drop_last();
        let now = times.last();
        assert(forall|j: int| 0 <= j < prefix.len() ==> #[trigger] prefix[j] == times[j]);
        lemma_sliding_concurrent_quota(max_requests, window, prefix);
        if prefix.len() == 0 {
            assert(sliding_state_after_checks(Seq::empty(), max_requests, window, prefix)
                == Seq::<u64>::empty());
            assert(spec_pruned(Seq::<u64>::empty(), window, now) == Seq::<u64>::empty());
        } else {
            lemma_sliding_state_in_window(max_requests, window, prefix);
            let pcap: int = if prefix.len() <= max_requests {
                prefix.len() as int
            } else {
                max_requests as int
            };
            let log = times.take(pcap);
            assert(prefix.take(pcap) =~= log);
            assert(sliding_state_after_checks(Seq::empty(), max_requests, window, prefix) == log);
            assert(forall|j: int|
                0 <= j < log.len() ==> spec_elapsed(#[trigger] log[j], now) <= window);
            lemma_pruned_keeps_all(log, window, now);
            assert(log.len() == pcap);
        }
    }
}

/// The per-key state of the sliding-window algorithm: the instants of the
/// admitted requests still within one window, in recorded order.
pub struct EventLog {
    events: Vec<u64>,
}

impl View for EventLog {
    type V = Seq<u64>;

    closed spec fn view(&self) -> Seq<u64> {
        self.events@
    }
}

impl Clone for EventLog {
    fn clone(&self) -> (r: Self)
        ensures
            r@ == self@,
    {
        let n = self.events.len();
        let mut events: Vec<u64> = Vec::new();
        let mut i: usize = 0;
        while i < n
            invariant
                i <= n,
                n == self.events@.len(),
                events@ == self.events@.take(i as int),
            decreases n - i,
        {
            events.push(self.events[i]);
            proof {
                assert(events@ =~= self.events@.take(i + 1));
            }
            i += 1;
        }
        proof {
            assert(self.events@.take(n as int) =~= self.events@);
        }
        EventLog { events }
    }
}

impl EventLog {
    /// A fresh log holding the one instant that created it.
    pub fn new(now: u64) -> (l: Self)
        ensures
            l@ =~= seq![now],
    {
        let mut events: Vec<u64> = Vec::new();
        events.push(now);
        EventLog { events }
    }

    /// One sliding-window admission check at `now`. Prunes and extends the
    /// log exactly as [`spec_log_after`] describes and returns the matching
    /// [`spec_sliding_outcome`].
    pub fn check(&mut self, max_requests: u32, window: u64, now: u64) -> (o: Outcome)
        requires
            forall|i: int|
                0 <= i < old(self)@.len() ==> #[trigger] old(self)@[i] + window <= u64::MAX,
            now + window <= u64::MAX,
        ensures
            final(self)@ == spec_log_after(old(self)@, max_requests, window, now),
            o == spec_sliding_outcome(old(self)@, max_requests, window, now),
    {
        if max_requests == 0 {
            return Outcome::Rejected { retry_after: window, limit: 0, reset_at: now + window };
        }
        let n = self.events.len();
        let mut kept: Vec<u64> = Vec::new();
        let mut i: usize = 0;
        while i < n
            invariant
                i <= n,
                n == self.events@.len(),
                kept@ == spec_pruned(self.events@.take(i as int), window, now),
            decreases n - i,
        {
            let t = self.events[i];
            proof {
                assert(self.events@.take(i + 1).drop_last() =~= self.events@.take(i as int));
                assert(self.events@.take(i + 1).last() == t);
            }
            let elapsed: u64 = if now >= t {
                now - t
            } else {
                0
            };
            if elapsed <= window {
                kept.push(t);
            }
            i += 1;
        }
        proof {
            assert(self.events@.take(n as int) =~= self.events@);
            lemma_pruned_elements(self@, window, now);
        }
        if kept.len() >= max_requests as usize {
            let oldest = kept[0];
            let elapsed: u64 = if now >= oldest {
                now - oldest
            } else {
                0
            };
            let o = Outcome::Rejected {
                retry_after: window - elapsed,
                limit: max_requests,
                reset_at: oldest + window,
            };
            self.events = kept;
            o
        } else {
            let oldest = if kept.len() == 0 {
                now
            } else {
                kept[0]
            };
            let remaining = max_requests - (kept.len() as u32 + 1);
            kept.push(now);
            self.events = kept;
            Outcome::Admitted { remaining, reset_at: oldest + window }
        }
    }

    /// Whether every recorded instant is more than a full window old at
    /// `now`, so that the log holds nothing a check would retain.
    pub fn all_expired(&self, window: u64, now: u64) -> (b: bool)
        ensures
            b == (spec_pruned(self@, window, now).len() == 0),
    {
        let n = self.events.len();
        let mut i: usize = 0;
        while i < n
            invariant
                i <= n,
                n == self.events@.len(),
                spec_pruned(self.events@.take(i as int), window, now).len() == 0,
            decreases n - i,
        {
            let t = self.events[i];
            proof {
                assert(self.events@.take(i + 1).drop_last() =~= self.events@.take(i as int));
                assert(self.events@.take(i + 1).last() == t);
            }
            let elapsed: u64 = if now >= t {
                now - t
            } else {
                0
            };
            if elapsed <= window {
                proof {
                    lemma_pruned_not_empty(self.events@, window, now, i as int);
                }
                return false;
            }
            i += 1;
        }
        proof {
            assert(self.events@.take(n as int) =~= self.events@);
        }
        true
    }
}

/// A log with at least one retained instant does not prune to empty.
pub proof fn lemma_pruned_not_empty(events: Seq<u64>, window: u64, now: u64, i: int)
    requires
        0 <= i < events.len(),
        spec_elapsed(events[i], now) <= window,
    ensures
        spec_pruned(events, window, now).len() > 0,
    decreases events.len(),
{
    if i == events.len() - 1 {
    } else {
        assert(events.drop_last()[i] == events[i]);
        lemma_pruned_not_empty(events.drop_last(), window, now, i);
    }
}

} // verus!
