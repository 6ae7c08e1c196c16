//! A fixed-window rate limiter: per `(action, key)` it counts calls since the
//! window began and rejects the ones beyond the burst. A failed call still
//! counts toward the window. Windows reset once the window duration has
//! elapsed — or if the clock ran backwards past the window's start.

use vstd::prelude::*;
use vstd::slice::slice_to_vec;
use crate::bytes::ct_bytes_eq;
use crate::errors::AuthError;

verus! {

/// Up to `burst` calls are allowed within any one window of `window_secs`
/// seconds; the call after that fails until the window turns over.
#[derive(Clone, Copy, Debug, PartialEq, Eq, Structural)]
pub struct RateLimiterConfig {
    pub burst: u64,
    pub window_secs: u64,
}

/// One fixed window: how many calls since it began, and when it began.
pub struct WindowView {
    pub count: u64,
    pub start: u64,
}

struct RateEntry {
    action: Vec<u8>,
    key: Vec<u8>,
    count: u64,
    start: u64,
}

pub open spec fn saturating_inc(n: u64) -> u64 {
    if n == u64::MAX {
        n
    } else {
        (n + 1) as u64
    }
}

/// One call's effect on the window for its key: keep the window if it is
/// still current, start a fresh one otherwise, and count the call. The count
/// saturates rather than wrap; with `burst < u64::MAX` a saturated window
/// keeps rejecting, which is the safe side.
pub open spec fn spec_step(prev: Option<WindowView>, config: RateLimiterConfig, now: u64) -> WindowView {
    let base = match prev {
        Some(w) => if w.start <= now && now - w.start < config.window_secs {
            w
        } else {
            WindowView { count: 0, start: now }
        },
        None => WindowView { count: 0, start: now },
    };
    WindowView { count: saturating_inc(base.count), start: base.start }
}

spec fn entry_window(e: RateEntry) -> WindowView {
    WindowView { count: e.count, start: e.start }
}

spec fn entry_matches(e: RateEntry, a: Seq<u8>, k: Seq<u8>) -> bool {
    e.action@ == a && e.key@ == k
}

spec fn seq_window_of(s: Seq<RateEntry>, a: Seq<u8>, k: Seq<u8>) -> Option<WindowView>
    decreases s.len(),
{
    if s.len() == 0 {
        None
    } else if entry_matches(s[0], a, k) {
        Some(entry_window(s[0]))
    } else {
        seq_window_of(s.drop_first(), a, k)
    }
}

spec fn distinct_entries(s: Seq<RateEntry>) -> bool {
    forall|i: int, j: int|
        0 <= i < j < s.len() ==> !(#[trigger] s[i].action@ == #[trigger] s[j].action@
            && s[i].key@ == s[j].key@)
}

proof fn lemma_window_none(s: Seq<RateEntry>, a: Seq<u8>, k: Seq<u8>)
    ensures
        (seq_window_of(s, a, k) is None) <==> (forall|i: int|
            0 <= i < s.len() ==> !entry_matches(#[trigger] s[i], a, k)),
    decreases s.len(),
{
    reveal_with_fuel(seq_window_of, 3);
    if s.len() > 0 {
        lemma_window_none(s.drop_first(), a, k);
        assert forall|i: int| 1 <= i < s.len() implies s.drop_first()[i - 1] == s[i] by {}
    }
}

proof fn lemma_window_found(s: Seq<RateEntry>, a: Seq<u8>, k: Seq<u8>, i: int)
    requires
        distinct_entries(s),
        0 <= i < s.len(),
        entry_matches(s[i], a, k),
    ensures
        seq_window_of(s, a, k) == Some(entry_window(s[i])),
    decreases s.len(),
{
    reveal_with_fuel(seq_window_of, 3);
    if i > 0 {
        assert(!entry_matches(s[0], a, k));
        lemma_window_found(s.drop_first(), a, k, i - 1);
    }
}

proof fn lemma_window_update_other(s: Seq<RateEntry>, i: int, e: RateEntry, a: Seq<u8>, k: Seq<u8>)
    requires
        0 <= i < s.len(),
        e.action@ == s[i].action@,
        e.key@ == s[i].key@,
        !(a == e.action@ && k == e.key@),
    ensures
        seq_window_of(s.update(i, e), a, k) == seq_window_of(s, a, k),
    decreases s.len(),
{
    reveal_with_fuel(seq_window_of, 3);
    let s2 = s.update(i, e);
    if i == 0 {
        assert(s2[0] == e);
        assert(!entry_matches(e, a, k));
        assert(!entry_matches(s[0], a, k));
        assert(s2.drop_first() =~= s.drop_first());
    } else {
        assert(s2[0] == s[0]);
        if !entry_matches(s[0], a, k) {
            assert(s2.drop_first() =~= s.drop_first().update(i - 1, e));
            lemma_window_update_other(s.drop_first(), i - 1, e, a, k);
        }
    }
}

proof fn lemma_window_push_other(s: Seq<RateEntry>, e: RateEntry, a: Seq<u8>, k: Seq<u8>)
    requires
        !(a == e.action@ && k == e.key@),
    ensures
        seq_window_of(s.push(e), a, k) == seq_window_of(s, a, k),
    decreases s.len(),
{
    reveal_with_fuel(seq_window_of, 3);
    let s2 = s.push(e);
    if s.len() == 0 {
        assert(s2[0] == e);
        assert(!entry_matches(e, a, k));
        assert(s2.drop_first() =~= Seq::<RateEntry>::empty());
        assert(seq_window_of(Seq::<RateEntry>::empty(), a, k) is None);
    } else {
        assert(s2[0] == s[0]);
        if !entry_matches(s[0], a, k) {
            assert(s2.drop_first() =~= s.drop_first().push(e));
            lemma_window_push_other(s.drop_first(), e, a, k);
        }
    }
}

proof fn lemma_window_update(s: Seq<RateEntry>, i: int, e: RateEntry)
    requires
        distinct_entries(s),
        0 <= i < s.len(),
        e.action@ == s[i].action@,
        e.key@ == s[i].key@,
    ensures
        distinct_entries(s.update(i, e)),
        seq_window_of(s.update(i, e), e.action@, e.key@) == Some(entry_window(e)),
        forall|a: Seq<u8>, k: Seq<u8>|
            !(a == e.action@ && k == e.key@) ==> #[trigger] seq_window_of(s.update(i, e), a, k)
                == seq_window_of(s, a, k),
    decreases s.len(),
{
    reveal_with_fuel(seq_window_of, 3);
    let s2 = s.update(i, e);
    assert forall|p: int, q: int|
        0 <= p < q < s2.len() implies !(#[trigger] s2[p].action@ == #[trigger] s2[q].action@
            && s2[p].key@ == s2[q].key@) by {
        assert(s2[p].action@ == s[p].action@ && s2[p].key@ == s[p].key@);
        assert(s2[q].action@ == s[q].action@ && s2[q].key@ == s[q].key@);
    }
    lemma_window_found(s2, e.action@, e.key@, i);
    assert forall|a: Seq<u8>, k: Seq<u8>|
        !(a == e.action@ && k == e.key@) implies #[trigger] seq_window_of(s2, a, k)
            == seq_window_of(s, a, k) by {
        lemma_window_update_other(s, i, e, a, k);
    }
}

proof fn lemma_window_push(s: Seq<RateEntry>, e: RateEntry)
    requires
        distinct_entries(s),
        seq_window_of(s, e.action@, e.key@) is None,
    ensures
        distinct_entries(s.push(e)),
        seq_window_of(s.push(e), e.action@, e.key@) == Some(entry_window(e)),
        forall|a: Seq<u8>, k: Seq<u8>|
            !(a == e.action@ && k == e.key@) ==> #[trigger] seq_window_of(s.push(e), a, k)
                == seq_window_of(s, a, k),
    decreases s.len(),
{
    reveal_with_fuel(seq_window_of, 3);
    lemma_window_none(s, e.action@, e.key@);
    let s2 = s.push(e);
    assert forall|p: int, q: int|
        0 <= p < q < s2.len() implies !(#[trigger] s2[p].action@ == #[trigger] s2[q].action@
            && s2[p].key@ == s2[q].key@) by {
        if q < s.len() {
            assert(s2[p] == s[p] && s2[q] == s[q]);
        } else {
            assert(s2[q] == e && s2[p] == s[p]);
            assert(!entry_matches(s[p], e.action@, e.key@));
        }
    }
    lemma_window_found(s2, e.action@, e.key@, s.len() as int);
    assert forall|a: Seq<u8>, k: Seq<u8>|
        !(a == e.action@ && k == e.key@) implies #[trigger] seq_window_of(s2, a, k)
            == seq_window_of(s, a, k) by {
        lemma_window_push_other(s, e, a, k);
    }
}

fn find_entry(entries: &Vec<RateEntry>, action: &[u8], key: &[u8]) -> (r: Option<usize>)
    ensures
        match r {
            Some(i) => i < entries@.len() && entry_matches(entries@[i as int], action@, key@),
            None => forall|j: int|
                0 <= j < entries@.len() ==> !entry_matches(#[trigger] entries@[j], action@, key@),
        },
{
    let n = entries.len();
    let mut i: usize = 0;
    while i < n
        invariant
            n == entries@.len(),
            i <= n,
            forall|j: int| 0 <= j < i ==> !entry_matches(#[trigger] entries@[j], action@, key@),
        decreases n - i,
    {
        if ct_bytes_eq(entries[i].action.as_slice(), action)
            && ct_bytes_eq(entries[i].key.as_slice(), key) {
            return Some(i);
        }
        i = i + 1;
    }
    None
}

/// Fixed-window counters keyed by `(action, key)`. Owns its entries
/// exclusively; callers share it only behind their own mutual exclusion.
pub struct RateLimiter {
    entries: Vec<RateEntry>,
}

impl RateLimiter {
    /// The entries never hold two windows for one `(action, key)`.
    pub closed spec fn wf(&self) -> bool {
        distinct_entries(self.entries@)
    }

    /// The window currently recorded for `(a, k)`, if any.
    pub closed spec fn window_of(&self, a: Seq<u8>, k: Seq<u8>) -> Option<WindowView> {
        seq_window_of(self.entries@, a, k)
    }

    /// An empty limiter: no key has a window yet.
    pub fn new() -> (r: RateLimiter)
        ensures
            r.wf(),
            forall|a: Seq<u8>, k: Seq<u8>| r.window_of(a, k) is None,
    {
        let r = RateLimiter { entries: Vec::new() };
        proof {
            assert forall|a: Seq<u8>, k: Seq<u8>| r.window_of(a, k) is None by {
                lemma_window_none(r.entries@, a, k);
            }
        }
        r
    }

    /// Count one call against `(action, key)` and say whether it is within
    /// the burst. The attempt itself always counts — a rejected call is not
    /// handed back to the window.
    pub fn check(&mut self, action: &[u8], key: &[u8], config: &RateLimiterConfig, now: u64) -> (r:
        Result<(), AuthError>)
        requires
            old(self).wf(),
        ensures
            final(self).wf(),
            final(self).window_of(action@, key@) == Some(
                spec_step(old(self).window_of(action@, key@), *config, now),
            ),
            forall|a: Seq<u8>, k: Seq<u8>|
                !(a == action@ && k == key@) ==> #[trigger] final(self).window_of(a, k) == old(
                    self,
                ).window_of(a, k),
            r is Ok <==> spec_step(old(self).window_of(action@, key@), *config, now).count
                <= config.burst,
            r is Err ==> r == Err::<(), AuthError>(AuthError::RateLimitExceeded),
    {
        let found = find_entry(&self.entries, action, key);
        if let Some(i) = found {
            proof {
                lemma_window_found(self.entries@, action@, key@, i as int);
            }
            let in_window = self.entries[i].start <= now
                && now - self.entries[i].start < config.window_secs;
            let (base_count, base_start) = if in_window {
                (self.entries[i].count, self.entries[i].start)
            } else {
                (0, now)
            };
            let new_count = if base_count == u64::MAX {
                u64::MAX
            } else {
                base_count + 1
            };
            let updated = RateEntry {
                action: slice_to_vec(action),
                key: slice_to_vec(key),
                count: new_count,
                start: base_start,
            };
            proof {
                lemma_window_update(self.entries@, i as int, updated);
            }
            self.entries[i] = updated;
            if new_count <= config.burst {
                Ok(())
            } else {
                Err(AuthError::RateLimitExceeded)
            }
        } else {
            proof {
                lemma_window_none(self.entries@, action@, key@);
            }
            let fresh = RateEntry {
                action: slice_to_vec(action),
                key: slice_to_vec(key),
                count: 1,
                start: now,
            };
            proof {
                lemma_window_push(self.entries@, fresh);
            }
            self.entries.push(fresh);
            if 1 <= config.burst {
                Ok(())
            } else {
                Err(AuthError::RateLimitExceeded)
            }
        }
    }
}

/// The window for a key after `n` calls at time `now`, all under one
/// configuration, starting from `prev`.
pub open spec fn windows_after(prev: Option<WindowView>, config: RateLimiterConfig, now: u64, n: nat) -> Option<
    WindowView,
>
    decreases n,
{
    if n == 0 {
        prev
    } else {
        Some(spec_step(windows_after(prev, config, now, (n - 1) as nat), config, now))
    }
}

proof fn lemma_windows_after_counts(config: RateLimiterConfig, t0: u64, n: nat)
    requires
        config.window_secs >= 1,
        1 <= n <= u64::MAX,
    ensures
        windows_after(None, config, t0, n) == Some((WindowView { count: n as u64, start: t0 })),
    decreases n,
{
    if n == 1 {
        assert(windows_after(None, config, t0, 0) == None::<WindowView>);
        assert(windows_after(None, config, t0, 1) == Some(spec_step(None, config, t0)));
    } else {
        lemma_windows_after_counts(config, t0, (n - 1) as nat);
        assert(windows_after(None, config, t0, n) == Some(
            spec_step(windows_after(None, config, t0, (n - 1) as nat), config, t0),
        ));
    }
}

/// The fixed-window law: starting with no window for a key, each of the first
/// `burst` calls within one window is allowed (the n-th leaves count `n`),
/// the `(burst + 1)`-th call in the same window is rejected, and once the
/// window duration has elapsed a further call is allowed again.
pub proof fn lemma_fixed_window(config: RateLimiterConfig, t0: u64, t1: u64)
    requires
        1 <= config.burst < u64::MAX,
        config.window_secs >= 1,
        t0 <= t1,
        t1 - t0 >= config.window_secs,
    ensures
        forall|n: nat|
            1 <= n <= config.burst + 1 ==> #[trigger] windows_after(None, config, t0, n) == Some(
                (WindowView { count: n as u64, start: t0 }),
            ),
        spec_step(windows_after(None, config, t0, config.burst as nat), config, t0).count
            == config.burst + 1,
        spec_step(windows_after(None, config, t0, (config.burst + 1) as nat), config, t1).count
            == 1,
{
    assert forall|n: nat|
        1 <= n <= config.burst + 1 implies #[trigger] windows_after(None, config, t0, n) == Some(
        (WindowView { count: n as u64, start: t0 }),
    ) by {
        lemma_windows_after_counts(config, t0, n);
    }
    lemma_windows_after_counts(config, t0, config.burst as nat);
    lemma_windows_after_counts(config, t0, (config.burst + 1) as nat);
}

} // verus!
