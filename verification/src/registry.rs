//! The registry: one per-key counter under one shared configuration, with
//! the counting policy — fixed window or sliding window — chosen once by
//! that configuration.
//!
//! The registry owns the key-to-counter mapping outright; callers that serve
//! requests concurrently hold it behind one exclusion primitive and run each
//! check alone, so checks for one key are strictly serialized and every
//! interleaving of concurrent checks is some total order of them. Entries are
//! created lazily on a key's first request; [`RateLimiter::sweep_expired`]
//! removes entries whose window has fully elapsed, which the next check for
//! that key would treat as fresh anyway, so the key set stays bounded by the
//! traffic of one window.

use vstd::prelude::*;

use crate::config::LimitAlgorithm;
use crate::config::RateLimitConfig;
use crate::config::MAX_INSTANT_MILLIS;
use crate::counter::Outcome;
use crate::counter::WindowCounter;
use crate::counter::spec_counter_after;
use crate::counter::spec_elapsed;
use crate::counter::spec_outcome;
use crate::format::RateLimitInfo;
use crate::format::RateLimitRejection;
use crate::format::format_retry_metadata;
use crate::format::spec_info_matches;
use crate::format::spec_rejection_matches;
use crate::sliding::EventLog;
use crate::sliding::spec_log_after;
use crate::sliding::spec_pruned;
use crate::sliding::spec_sliding_outcome;
use crate::sliding::lemma_pruned_elements;
use crate::sliding::lemma_pruned_drops_all;
use crate::sliding::lemma_sliding_window_reset;

verus! {

/// The state tracked for one key: the counter of the algorithm the registry
/// was configured with.
pub enum KeyState {
    /// Fixed-window counter.
    Fixed(WindowCounter),
    /// Sliding-window event log.
    Sliding(EventLog),
}

/// The mathematical value of a [`KeyState`]: the counter itself, or the
/// recorded instants.
pub enum KeyStateModel {
    /// Fixed-window counter.
    Fixed(WindowCounter),
    /// The instants a sliding-window log holds, in recorded order.
    Sliding(Seq<u64>),
}

impl View for KeyState {
    type V = KeyStateModel;

    open spec fn view(&self) -> KeyStateModel {
        match self {
            KeyState::Fixed(c) => KeyStateModel::Fixed(*c),
            KeyState::Sliding(l) => KeyStateModel::Sliding(l@),
        }
    }
}

impl Clone for KeyState {
    fn clone(&self) -> (r: Self)
        ensures
            r@ == self@,
    {
        match self {
            KeyState::Fixed(c) => KeyState::Fixed(*c),
            KeyState::Sliding(l) => KeyState::Sliding(l.clone()),
        }
    }
}

/// One key's state after one check at `now`: the step of whichever algorithm
/// the state belongs to.
pub open spec fn spec_state_step(
    prior: KeyStateModel,
    max_requests: u32,
    window: u64,
    now: u64,
) -> KeyStateModel {
    match prior {
        KeyStateModel::Fixed(c) => KeyStateModel::Fixed(
            match spec_counter_after(Some(c), max_requests, window, now) {
                Some(c2) => c2,
                None => c,
            },
        ),
        KeyStateModel::Sliding(s) => KeyStateModel::Sliding(
            spec_log_after(s, max_requests, window, now),
        ),
    }
}

/// One key's outcome at `now`: the outcome of whichever algorithm the state
/// belongs to.
pub open spec fn spec_state_outcome(
    prior: KeyStateModel,
    max_requests: u32,
    window: u64,
    now: u64,
) -> Outcome {
    match prior {
        KeyStateModel::Fixed(c) => spec_outcome(Some(c), max_requests, window, now),
        KeyStateModel::Sliding(s) => spec_sliding_outcome(s, max_requests, window, now),
    }
}

/// The state created for a key seen for the first time (under a positive
/// quota): a window, or a log, beginning at `now` and charged with this
/// request.
pub open spec fn spec_fresh_state(config: RateLimitConfig, now: u64) -> KeyStateModel {
    match config.algorithm {
        LimitAlgorithm::FixedWindow => KeyStateModel::Fixed(
            WindowCounter { window_start: now, count: 1 },
        ),
        LimitAlgorithm::SlidingWindow => KeyStateModel::Sliding(seq![now]),
    }
}

/// A key's tracked state after one registry check at `now`: stepped if
/// present, created if absent — except under a zero quota, which tracks
/// nothing.
pub open spec fn spec_key_state_after(
    prior: Option<KeyStateModel>,
    config: RateLimitConfig,
    now: u64,
) -> Option<KeyStateModel> {
    match prior {
        Some(m) => Some(spec_state_step(m, config.max_requests, config.window_millis, now)),
        None => if config.max_requests == 0 {
            None
        } else {
            Some(spec_fresh_state(config, now))
        },
    }
}

/// A key's outcome for one registry check at `now`. An unseen key is
/// admitted with the full quota less this request under either algorithm —
/// or rejected for a full window under a zero quota.
pub open spec fn spec_key_outcome(
    prior: Option<KeyStateModel>,
    config: RateLimitConfig,
    now: u64,
) -> Outcome {
    match prior {
        Some(m) => spec_state_outcome(m, config.max_requests, config.window_millis, now),
        None => if config.max_requests == 0 {
            Outcome::Rejected {
                retry_after: config.window_millis,
                limit: 0,
                reset_at: (now + config.window_millis) as u64,
            }
        } else {
            Outcome::Admitted {
                remaining: (config.max_requests - 1) as u32,
                reset_at: (now + config.window_millis) as u64,
            }
        },
    }
}

impl KeyState {
    /// One admission check at `now`, dispatched to the algorithm this state
    /// belongs to.
    pub fn check(&mut self, max_requests: u32, window: u64, now: u64) -> (o: Outcome)
        requires
            now + window <= u64::MAX,
            match old(self)@ {
                KeyStateModel::Fixed(c) => c.window_start + window <= u64::MAX,
                KeyStateModel::Sliding(s) => forall|i: int|
                    0 <= i < s.len() ==> #[trigger] s[i] + window <= u64::MAX,
            },
        ensures
            final(self)@ == spec_state_step(old(self)@, max_requests, window, now),
            o == spec_state_outcome(old(self)@, max_requests, window, now),
    {
        match self {
            KeyState::Fixed(c) => c.check(max_requests, window, now),
            KeyState::Sliding(l) => l.check(max_requests, window, now),
        }
    }
}

/// What the registry's well-formedness asks of one tracked state: the
/// variant matches the configured algorithm, every recorded instant leaves
/// the reset instant renderable, and the recorded count is between one and
/// the quota.
spec fn entry_state_wf(m: KeyStateModel, config: RateLimitConfig) -> bool {
    match m {
        KeyStateModel::Fixed(c) => {
            &&& config.algorithm is FixedWindow
            &&& c.window_start + config.window_millis <= MAX_INSTANT_MILLIS
            &&& 1 <= c.count <= config.max_requests
        },
        KeyStateModel::Sliding(s) => {
            &&& config.algorithm is SlidingWindow
            &&& forall|i: int|
                0 <= i < s.len() ==> #[trigger] s[i] + config.window_millis <= MAX_INSTANT_MILLIS
            &&& 1 <= s.len() <= config.max_requests
        },
    }
}

/// A checked step preserves what well-formedness asks of a tracked state.
proof fn lemma_step_preserves_entry_wf(m: KeyStateModel, config: RateLimitConfig, now: u64)
    requires
        entry_state_wf(m, config),
        now + config.window_millis <= MAX_INSTANT_MILLIS,
    ensures
        entry_state_wf(
            spec_state_step(m, config.max_requests, config.window_millis, now),
            config,
        ),
{
    match m {
        KeyStateModel::Fixed(_) => {},
        KeyStateModel::Sliding(s) => {
            let window = config.window_millis;
            lemma_pruned_elements(s, window, now);
            let kept = spec_pruned(s, window, now);
            assert forall|i: int| 0 <= i < kept.len() implies #[trigger] kept[i] + window
                <= MAX_INSTANT_MILLIS by {
                let j = choose|j: int| 0 <= j < s.len() && s[j] == kept[i];
            }
        },
    }
}

/// Under a well-formed state, every outcome's reset instant stays
/// renderable: at most one window past a recorded instant, or past `now`.
proof fn lemma_outcome_reset_bounded(
    m_opt: Option<KeyStateModel>,
    config: RateLimitConfig,
    now: u64,
)
    requires
        now + config.window_millis <= MAX_INSTANT_MILLIS,
        m_opt matches Some(m) ==> entry_state_wf(m, config),
    ensures
        spec_key_outcome(m_opt, config, now).spec_reset_at() <= MAX_INSTANT_MILLIS,
{
    match m_opt {
        None => {},
        Some(KeyStateModel::Fixed(_)) => {},
        Some(KeyStateModel::Sliding(s)) => {
            let window = config.window_millis;
            lemma_pruned_elements(s, window, now);
            let kept = spec_pruned(s, window, now);
            if kept.len() > 0 {
                assert(s.contains(kept[0]));
                let j = choose|j: int| 0 <= j < s.len() && s[j] == kept[0];
                assert(s[j] + window <= MAX_INSTANT_MILLIS);
            }
        },
    }
}

/// One tracked key and its counter.
struct Entry {
    key: String,
    counter: KeyState,
}

/// Whether no two entries of `s` track the same key.
spec fn unique_keys(s: Seq<Entry>) -> bool {
    forall|i: int, j: int| 0 <= i < j < s.len() ==> s[i].key@ != s[j].key@
}

/// Whether some entry of `s` tracks `k`.
spec fn seq_has_key(s: Seq<Entry>, k: Seq<char>) -> bool {
    exists|i: int| 0 <= i < s.len() && (#[trigger] s[i]).key@ == k
}

/// The state that `s` tracks for `k`, if any.
spec fn seq_key_state(s: Seq<Entry>, k: Seq<char>) -> Option<KeyStateModel> {
    if seq_has_key(s, k) {
        Some(s[choose|i: int| 0 <= i < s.len() && (#[trigger] s[i]).key@ == k].counter@)
    } else {
        None
    }
}

/// Appending an entry for a key that `s` does not track yet changes the state
/// of that key alone.
proof fn lemma_key_state_push(s: Seq<Entry>, e: Entry, k: Seq<char>)
    requires
        unique_keys(s),
        !seq_has_key(s, e.key@),
    ensures
        seq_key_state(s.push(e), k) == if k == e.key@ {
            Some(e.counter@)
        } else {
            seq_key_state(s, k)
        },
{
    let s2 = s.push(e);
    if k == e.key@ {
        assert(s2[s.len() as int].key@ == k);
        assert(seq_has_key(s2, k));
        let i = choose|i: int| 0 <= i < s2.len() && (#[trigger] s2[i]).key@ == k;
        if i < s.len() {
            assert(s[i].key@ == e.key@);
            assert(false);
        }
        assert(s2[i].counter@ == e.counter@);
    } else {
        if seq_has_key(s, k) {
            let i = choose|i: int| 0 <= i < s.len() && (#[trigger] s[i]).key@ == k;
            assert(s2[i].key@ == k);
            assert(seq_has_key(s2, k));
            let i2 = choose|i: int| 0 <= i < s2.len() && (#[trigger] s2[i]).key@ == k;
            assert(i2 < s.len());
            assert(s[i2].key@ == k);
            assert(i2 == i);
        } else {
            assert forall|i: int| 0 <= i < s2.len() implies (#[trigger] s2[i]).key@ != k by {
                if i < s.len() {
                    assert(s[i].key@ != k);
                }
            }
            assert(!seq_has_key(s2, k));
        }
    }
}

impl Entry {
    /// A copy tracking the same key with the same state.
    fn duplicate(&self) -> (r: Self)
        ensures
            r.key@ == self.key@,
            r.counter@ == self.counter@,
    {
        Entry { key: self.key.clone(), counter: self.counter.clone() }
    }
}

/// The state [`RateLimiter::sweep_expired`] leaves for a key: an entry whose
/// window has fully elapsed at `now` — a fixed window more than one window
/// old, or a log with nothing a check would retain — is dropped, any other
/// is kept as it is.
pub open spec fn spec_swept(
    prior: Option<KeyStateModel>,
    window: u64,
    now: u64,
) -> Option<KeyStateModel> {
    match prior {
        Some(KeyStateModel::Fixed(c)) => if spec_elapsed(c.window_start, now) > window {
            None
        } else {
            prior
        },
        Some(KeyStateModel::Sliding(s)) => if spec_pruned(s, window, now).len() == 0 {
            None
        } else {
            prior
        },
        None => None,
    }
}

/// Maps every observed key to its counter state, under one configuration.
pub struct RateLimiter {
    entries: Vec<Entry>,
    config: RateLimitConfig,
}

impl RateLimiter {
    /// The configuration every key is checked under.
    pub closed spec fn spec_config(self) -> RateLimitConfig {
        self.config
    }

    /// The state tracked for key `k`, if any: the registry's whole
    /// observable state, key by key.
    pub closed spec fn key_state(self, k: Seq<char>) -> Option<KeyStateModel> {
        seq_key_state(self.entries@, k)
    }

    /// Internal well-formedness: keys are tracked at most once, every entry
    /// belongs to the configured algorithm, every tracked window still fits
    /// below the largest renderable instant, and every tracked count is
    /// between one and the quota (so a zero quota tracks nothing at all).
    pub closed spec fn wf(self) -> bool {
        &&& unique_keys(self.entries@)
        &&& forall|i: int|
            0 <= i < self.entries@.len() ==> entry_state_wf(
                (#[trigger] self.entries@[i]).counter@,
                self.config,
            )
    }

    /// An empty registry: no key has been observed yet.
    pub fn new(config: RateLimitConfig) -> (r: Self)
        ensures
            r.wf(),
            r.spec_config() == config,
            forall|k: Seq<char>| #[trigger] r.key_state(k) is None,
    {
        RateLimiter { entries: Vec::new(), config }
    }

    /// The configuration this registry was built with.
    pub fn config(&self) -> (c: RateLimitConfig)
        ensures
            c == self.spec_config(),
    {
        self.config
    }

    /// Position of the entry tracking `key`, if one exists.
    fn find_index(&self, key: &String) -> (r: Option<usize>)
        ensures
            match r {
                Some(i) => i < self.entries@.len() && self.entries@[i as int].key@ == key@,
                None => !seq_has_key(self.entries@, key@),
            },
    {
        let n = self.entries.len();
        let mut i: usize = 0;
        while i < n
            invariant
                i <= n,
                n == self.entries@.len(),
                forall|j: int| 0 <= j < i ==> (#[trigger] self.entries@[j]).key@ != key@,
            decreases n - i,
        {
            if self.entries[i].key == *key {
                return Some(i);
            }
            i += 1;
        }
        None
    }

    /// Whether `key` is currently tracked.
    pub fn contains_key(&self, key: &str) -> (b: bool)
        ensures
            b == (self.key_state(key@) is Some),
    {
        let owned: String = key.to_owned();
        match self.find_index(&owned) {
            Some(_) => {
                proof {
                    assert(seq_has_key(self.entries@, key@));
                }
                true
            },
            None => false,
        }
    }

    /// One admission check for `key` at instant `now` (milliseconds).
    ///
    /// The outcome, and the key's next state, are exactly those of one step
    /// of the configured algorithm ([`spec_key_outcome`],
    /// [`spec_key_state_after`]) applied to this key's own state; the state
    /// of every other key is left untouched.
    pub fn check(&mut self, key: &str, now: u64) -> (o: Outcome)
        requires
            old(self).wf(),
            now + old(self).spec_config().window_millis <= MAX_INSTANT_MILLIS,
        ensures
            final(self).wf(),
            final(self).spec_config() == old(self).spec_config(),
            o == spec_key_outcome(old(self).key_state(key@), old(self).spec_config(), now),
            final(self).key_state(key@) == spec_key_state_after(
                old(self).key_state(key@),
                old(self).spec_config(),
                now,
            ),
            forall|k: Seq<char>|
                k != key@ ==> #[trigger] final(self).key_state(k) == old(self).key_state(k),
    {
        let max_requests = self.config.max_requests;
        let window = self.config.window_millis;
        let owned: String = key.to_owned();
        match self.find_index(&owned) {
            Some(i) => {
                proof {
                    assert(seq_has_key(self.entries@, key@));
                    let i2 = choose|j: int|
                        0 <= j < self.entries@.len() && (#[trigger] self.entries@[j]).key@ == key@;
                    assert(i2 == i as int);
                }
                let ghost pre = self.entries@;
                let e = &mut self.entries[i];
                let o = e.counter.check(max_requests, window, now);
                proof {
                    lemma_step_preserves_entry_wf(pre[i as int].counter@, self.config, now);
                    let post = self.entries@;
                    assert(forall|j: int|
                        0 <= j < post.len() ==> (#[trigger] post[j]).key@ == pre[j].key@);
                    assert(seq_has_key(post, key@));
                    let i3 = choose|j: int|
                        0 <= j < post.len() && (#[trigger] post[j]).key@ == key@;
                    assert(i3 == i as int);
                    assert forall|k: Seq<char>| k != key@ implies #[trigger] seq_key_state(post, k)
                        == seq_key_state(pre, k) by {
                        if seq_has_key(pre, k) {
                            let j1 = choose|j: int|
                                0 <= j < pre.len() && (#[trigger] pre[j]).key@ == k;
                            assert(post[j1].key@ == k);
                            let j2 = choose|j: int|
                                0 <= j < post.len() && (#[trigger] post[j]).key@ == k;
                            assert(j1 == j2);
                            assert(j1 != i as int);
                        } else {
                            assert(forall|j: int|
                                0 <= j < post.len() ==> (#[trigger] post[j]).key@ != k);
                        }
                    }
                }
                o
            },
            None => {
                if max_requests == 0 {
                    Outcome::Rejected { retry_after: window, limit: 0, reset_at: now + window }
                } else {
                    let counter = match self.config.algorithm {
                        LimitAlgorithm::FixedWindow => KeyState::Fixed(WindowCounter::new(now)),
                        LimitAlgorithm::SlidingWindow => KeyState::Sliding(EventLog::new(now)),
                    };
                    let ghost pre = self.entries@;
                    let entry = Entry { key: owned, counter };
                    proof {
                        assert(entry.key@ == key@);
                        assert(entry.counter@ == spec_fresh_state(self.config, now));
                    }
                    self.entries.push(entry);
                    proof {
                        assert forall|k: Seq<char>| true implies #[trigger] seq_key_state(
                            self.entries@,
                            k,
                        ) == if k == key@ {
                            Some(spec_fresh_state(self.config, now))
                        } else {
                            seq_key_state(pre, k)
                        } by {
                            lemma_key_state_push(pre, entry, k);
                        }
                    }
                    Outcome::Admitted { remaining: max_requests - 1, reset_at: now + window }
                }
            },
        }
    }

    /// One admission check for `key` at instant `now`, rendered as response
    /// metadata: an admission becomes the [`RateLimitInfo`] of
    /// [`spec_info_matches`], a rejection the [`RateLimitRejection`] of
    /// [`spec_rejection_matches`]. State moves exactly as in
    /// [`RateLimiter::check`].
    pub fn check_rate_limit(&mut self, key: &str, now: u64) -> (r: Result<
        RateLimitInfo,
        RateLimitRejection,
    >)
        requires
            old(self).wf(),
            now + old(self).spec_config().window_millis <= MAX_INSTANT_MILLIS,
        ensures
            final(self).wf(),
            final(self).spec_config() == old(self).spec_config(),
            final(self).key_state(key@) == spec_key_state_after(
                old(self).key_state(key@),
                old(self).spec_config(),
                now,
            ),
            forall|k: Seq<char>|
                k != key@ ==> #[trigger] final(self).key_state(k) == old(self).key_state(k),
            ({
                let o = spec_key_outcome(old(self).key_state(key@), old(self).spec_config(), now);
                match r {
                    Ok(info) => o is Admitted && spec_info_matches(
                        info,
                        o,
                        old(self).spec_config(),
                    ),
                    Err(rej) => o is Rejected && spec_rejection_matches(
                        rej,
                        o,
                        old(self).spec_config(),
                    ),
                }
            }),
    {
        let config = self.config;
        proof {
            lemma_key_state_wf(*old(self), key@);
            lemma_outcome_reset_bounded(old(self).key_state(key@), config, now);
        }
        let o = self.check(key, now);
        match o {
            Outcome::Admitted { .. } => Ok(format_retry_metadata(&o, &config)),
            Outcome::Rejected { retry_after, limit, reset_at } => Err(
                RateLimitRejection {
                    retry_after,
                    limit,
                    reset_time: (reset_at / 1000) as i64,
                    retry_after_format: config.retry_after_format,
                },
            ),
        }
    }

    /// Removes every entry whose window has fully elapsed at `now`. The next
    /// check for such a key would treat it as fresh anyway
    /// ([`lemma_sweep_is_invisible`]), so sweeping never changes any later
    /// outcome; it only bounds the registry's growth.
    pub fn sweep_expired(&mut self, now: u64)
        requires
            old(self).wf(),
        ensures
            final(self).wf(),
            final(self).spec_config() == old(self).spec_config(),
            forall|k: Seq<char>| #[trigger]
                final(self).key_state(k) == spec_swept(
                    old(self).key_state(k),
                    old(self).spec_config().window_millis,
                    now,
                ),
    {
        let window = self.config.window_millis;
        let n = self.entries.len();
        let mut kept: Vec<Entry> = Vec::new();
        let mut i: usize = 0;
        while i < n
            invariant
                i <= n,
                n == self.entries@.len(),
                *self == *old(self),
                old(self).wf(),
                window == self.config.window_millis,
                unique_keys(kept@),
                forall|j: int|
                    0 <= j < kept@.len() ==> entry_state_wf(
                        (#[trigger] kept@[j]).counter@,
                        self.config,
                    ),
                forall|k: Seq<char>| #[trigger]
                    seq_key_state(kept@, k) == spec_swept(
                        seq_key_state(self.entries@.take(i as int), k),
                        window,
                        now,
                    ),
            decreases n - i,
        {
            let ghost pre_take = self.entries@.take(i as int);
            let ghost pre_kept = kept@;
            let e = &self.entries[i];
            let expired = match &e.counter {
                KeyState::Fixed(c) => now >= c.window_start && now - c.window_start > window,
                KeyState::Sliding(l) => l.all_expired(window, now),
            };
            proof {
                assert(self.entries@.take(i + 1).drop_last() =~= pre_take);
                assert(self.entries@.take(i + 1).last() == self.entries@[i as int]);
                assert(self.entries@.take(i + 1) == pre_take.push(self.entries@[i as int]));
                assert(!seq_has_key(pre_take, self.entries@[i as int].key@)) by {
                    if seq_has_key(pre_take, self.entries@[i as int].key@) {
                        let j = choose|j: int|
                            0 <= j < pre_take.len() && (#[trigger] pre_take[j]).key@
                                == self.entries@[i as int].key@;
                        assert(self.entries@[j].key@ == self.entries@[i as int].key@);
                    }
                };
                assert(expired == (spec_swept(Some(self.entries@[i as int].counter@), window, now)
                    is None));
            }
            if !expired {
                let cloned = e.duplicate();
                proof {
                    assert(!seq_has_key(pre_kept, self.entries@[i as int].key@)) by {
                        assert(seq_key_state(pre_kept, self.entries@[i as int].key@)
                            == spec_swept(
                            seq_key_state(pre_take, self.entries@[i as int].key@),
                            window,
                            now,
                        ));
                    };
                }
                kept.push(cloned);
            }
            proof {
                assert forall|k: Seq<char>| true implies #[trigger] seq_key_state(kept@, k)
                    == spec_swept(seq_key_state(self.entries@.take(i + 1), k), window, now) by {
                    lemma_key_state_push(pre_take, self.entries@[i as int], k);
                    if !expired {
                        lemma_key_state_push(pre_kept, kept@.last(), k);
                    }
                }
            }
            i += 1;
        }
        proof {
            assert(self.entries@.take(n as int) == self.entries@);
        }
        self.entries = kept;
    }
}

/// A well-formed registry's tracked states all satisfy what well-formedness
/// asks of one.
proof fn lemma_key_state_wf(r: RateLimiter, k: Seq<char>)
    requires
        r.wf(),
    ensures
        r.key_state(k) matches Some(m) ==> entry_state_wf(m, r.spec_config()),
{
    if seq_has_key(r.entries@, k) {
        let i = choose|i: int| 0 <= i < r.entries@.len() && (#[trigger] r.entries@[i]).key@ == k;
        assert(entry_state_wf(r.entries@[i].counter@, r.config));
    }
}

/// Sweeping is invisible to later checks: a state whose window has fully
/// elapsed at sweep time behaves, at any instant from then on, exactly like
/// an absent entry — the same outcome and the same next state.
pub proof fn lemma_sweep_is_invisible(
    m: KeyStateModel,
    config: RateLimitConfig,
    now: u64,
    later: u64,
)
    requires
        config.max_requests >= 1,
        (m is Fixed <==> config.algorithm is FixedWindow),
        spec_swept(Some(m), config.window_millis, now) is None,
        now <= later,
    ensures
        spec_state_outcome(m, config.max_requests, config.window_millis, later)
            == spec_key_outcome(None, config, later),
        Some(spec_state_step(m, config.max_requests, config.window_millis, later))
            == spec_key_state_after(None, config, later),
{
    let window = config.window_millis;
    match m {
        KeyStateModel::Fixed(c) => {
            assert(spec_elapsed(c.window_start, later) >= spec_elapsed(c.window_start, now));
        },
        KeyStateModel::Sliding(s) => {
            lemma_pruned_drops_all(s, window, now, later);
            lemma_pruned_elements(s, window, later);
            assert forall|i: int| 0 <= i < s.len() implies spec_elapsed(#[trigger] s[i], later)
                > window by {
                if spec_elapsed(s[i], later) <= window {
                    crate::sliding::lemma_pruned_not_empty(s, window, later, i);
                }
            }
            lemma_sliding_window_reset(s, config.max_requests, window, later);
        },
    }
}

/// Two distinct keys never influence each other's quotas. A check for key
/// `a` leaves every other key's state untouched (an ensures of
/// [`RateLimiter::check`]); this lemma closes the argument: a key's outcome
/// is a function of its own state alone, so after any number of checks for
/// `a` — exhausting its quota included — a check for `b` returns exactly
/// what it would have returned before.
pub proof fn lemma_key_isolation(
    pre: RateLimiter,
    post: RateLimiter,
    a: Seq<char>,
    b: Seq<char>,
    now_b: u64,
)
    requires
        a != b,
        post.spec_config() == pre.spec_config(),
        forall|k: Seq<char>| k != a ==> #[trigger] post.key_state(k) == pre.key_state(k),
    ensures
        spec_key_outcome(post.key_state(b), post.spec_config(), now_b) == spec_key_outcome(
            pre.key_state(b),
            pre.spec_config(),
            now_b,
        ),
{
    assert(post.key_state(b) == pre.key_state(b));
}

} // verus!
