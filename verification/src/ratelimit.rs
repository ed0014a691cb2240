//! Connection-rate limiting per source address, for the listeners that clients
//! connect to.
//!
//! A fixed window: each source gets `limit` new connections per window, shared
//! by all listeners. A limit of 0 turns it off.

use vstd::prelude::*;
use crate::text;
use crate::text::str_eq;

verus! {

/// What is known of one source: when its window began, in milliseconds, and
/// how many connections it has asked for since.
struct Entry {
    source: String,
    start: u64,
    count: u32,
}

/// What is known of one source.
pub struct EntryView {
    pub start: u64,
    pub count: u32,
}

pub struct RateLimiter {
    limit: u32,
    window: u64,
    entries: Vec<Entry>,
}

/// The state of a rate limiter: the windows of the sources it knows.
#[verifier::ext_equal]
pub struct RateLimiterView {
    pub limit: u32,
    pub window: u64,
    pub entries: Map<Seq<char>, EntryView>,
}

spec fn entry_map(s: Seq<Entry>) -> Map<Seq<char>, EntryView>
    decreases s.len(),
{
    if s.len() == 0 {
        Map::empty()
    } else {
        entry_map(s.drop_last()).insert(
            s.last().source@,
            EntryView { start: s.last().start, count: s.last().count },
        )
    }
}

spec fn distinct_sources(s: Seq<Entry>) -> bool {
    forall|i: int, j: int|
        0 <= i < j < s.len() ==> (#[trigger] s[i]).source@ != (#[trigger] s[j]).source@
}

impl View for RateLimiter {
    type V = RateLimiterView;

    closed spec fn view(&self) -> RateLimiterView {
        RateLimiterView {
            limit: self.limit,
            window: self.window,
            entries: entry_map(self.entries@),
        }
    }
}

impl RateLimiterView {
    /// Whether a source starts a new window at `now`: it is not known, or its
    /// window has passed.
    pub open spec fn starts_window(self, source: Seq<char>, now: u64) -> bool {
        !self.entries.contains_key(source) || passed(self.entries[source].start, now)
            >= self.window
    }

    /// How many connections of a source count at `now`, with this one.
    pub open spec fn count(self, source: Seq<char>, now: u64) -> nat {
        if self.starts_window(source, now) {
            1
        } else {
            (self.entries[source].count + 1) as nat
        }
    }

    /// Whether a connection of a source may proceed at `now`. The first of a
    /// window that has passed always may.
    pub open spec fn allows(self, source: Seq<char>, now: u64) -> bool {
        self.limit == 0 || self.count(source, now) <= self.limit
    }

    /// The state after a connection of a source at `now`.
    pub open spec fn checked(self, source: Seq<char>, now: u64) -> RateLimiterView {
        if self.limit == 0 {
            self
        } else {
            RateLimiterView {
                entries: self.entries.insert(
                    source,
                    EntryView {
                        start: if self.starts_window(source, now) {
                            now
                        } else {
                            self.entries[source].start
                        },
                        count: if self.count(source, now) > u32::MAX {
                            u32::MAX
                        } else {
                            self.count(source, now) as u32
                        },
                    },
                ),
                ..self
            }
        }
    }

    /// The state without the sources whose windows began two windows ago or
    /// more.
    pub open spec fn swept(self, now: u64) -> RateLimiterView {
        RateLimiterView {
            entries: self.entries.restrict(
                Set::new(
                    |k: Seq<char>|
                        self.entries.contains_key(k) && passed(self.entries[k].start, now) < 2
                            * self.window,
                ),
            ),
            ..self
        }
    }
}

/// The time from `start` to `now`; a clock that went back counts as none.
pub open spec fn passed(start: u64, now: u64) -> int {
    if now >= start {
        now - start
    } else {
        0
    }
}

proof fn lemma_entry_map(s: Seq<Entry>)
    requires
        distinct_sources(s),
    ensures
        forall|k: Seq<char>|
            #[trigger] entry_map(s).contains_key(k) <==> exists|i: int|
                0 <= i < s.len() && (#[trigger] s[i]).source@ == k,
        forall|i: int|
            0 <= i < s.len() ==> entry_map(s)[(#[trigger] s[i]).source@] == (EntryView {
                start: s[i].start,
                count: s[i].count,
            }),
    decreases s.len(),
{
    if s.len() > 0 {
        let d = s.drop_last();
        assert forall|i: int, j: int| 0 <= i < j < d.len() implies (#[trigger] d[i]).source@ != (
        #[trigger] d[j]).source@ by {
            assert(s[i].source@ != s[j].source@);
        }
        lemma_entry_map(d);
        assert forall|k: Seq<char>| #[trigger] entry_map(s).contains_key(k) implies exists|i: int|
            0 <= i < s.len() && (#[trigger] s[i]).source@ == k by {
            if k == s.last().source@ {
                assert(s[s.len() - 1].source@ == k);
            } else {
                assert(entry_map(d).contains_key(k));
                let i = choose|i: int| 0 <= i < d.len() && (#[trigger] d[i]).source@ == k;
                assert(s[i].source@ == k);
            }
        }
        assert forall|k: Seq<char>|
            (exists|i: int| 0 <= i < s.len() && (#[trigger] s[i]).source@ == k) implies
            #[trigger] entry_map(s).contains_key(k) by {
            let i = choose|i: int| 0 <= i < s.len() && (#[trigger] s[i]).source@ == k;
            if i < d.len() {
                assert(d[i].source@ == k);
                assert(entry_map(d).contains_key(k));
            }
        }
        assert forall|i: int| 0 <= i < s.len() implies entry_map(s)[(#[trigger] s[i]).source@] == (
        EntryView { start: s[i].start, count: s[i].count }) by {
            if i < d.len() {
                assert(s[i].source@ != s[s.len() - 1].source@);
                assert(d[i] == s[i]);
            }
        }
    }
}

impl RateLimiter {
    /// Whether no source is listed twice.
    pub closed spec fn wf(&self) -> bool {
        distinct_sources(self.entries@)
    }

    /// A limiter of `limit` connections per `window_secs` seconds.
    pub fn new(limit: u32, window_secs: u32) -> (r: Self)
        ensures
            r.wf(),
            r@ == (RateLimiterView {
                limit,
                window: (1000 * window_secs) as u64,
                entries: Map::empty(),
            }),
    {
        Self::with_window(limit, window_secs as u64 * 1000)
    }

    /// A limiter of `limit` connections per `window` milliseconds.
    pub fn with_window(limit: u32, window: u64) -> (r: Self)
        ensures
            r.wf(),
            r@ == (RateLimiterView { limit, window, entries: Map::empty() }),
    {
        RateLimiter { limit, window, entries: Vec::new() }
    }

    /// How many sources are known.
    pub fn len(&self) -> (r: usize)
        requires
            self.wf(),
        ensures
            r == self@.entries.len(),
            self@.entries.dom().finite(),
    {
        proof {
            lemma_entry_count(self.entries@);
        }
        self.entries.len()
    }

    /// Records a connection of a source at `now` milliseconds and returns
    /// whether it may proceed.
    pub fn check(&mut self, source: &str, now: u64) -> (allowed: bool)
        requires
            old(self).wf(),
        ensures
            final(self).wf(),
            final(self)@ == old(self)@.checked(source@, now),
            allowed == old(self)@.allows(source@, now),
    {
        if self.limit == 0 {
            return true;
        }
        let ghost before = self.entries@;
        proof {
            lemma_entry_map(before);
        }
        let mut i: usize = 0;
        while i < self.entries.len()
            invariant
                i <= self.entries.len(),
                self == old(self),
                self.limit != 0,
                before == self.entries@,
                distinct_sources(before),
                forall|j: int| 0 <= j < i ==> (#[trigger] before[j]).source@ != source@,
                forall|k: Seq<char>|
                    #[trigger] entry_map(before).contains_key(k) <==> exists|i: int|
                        0 <= i < before.len() && (#[trigger] before[i]).source@ == k,
                forall|i: int|
                    0 <= i < before.len() ==> entry_map(before)[(#[trigger] before[i]).source@]
                        == (EntryView { start: before[i].start, count: before[i].count }),
            decreases self.entries.len() - i,
        {
            if str_eq(self.entries[i].source.as_str(), source) {
                let start: u64 = self.entries[i].start;
                let count: u32 = self.entries[i].count;
                assert(before[i as int].source@ == source@);
                assert(entry_map(before).contains_key(source@));
                let elapsed: u64 = if now >= start {
                    now - start
                } else {
                    0
                };
                let entry: Entry = if elapsed >= self.window {
                    Entry { source: source.to_owned(), start: now, count: 1 }
                } else {
                    Entry { source: source.to_owned(), start, count: count.saturating_add(1) }
                };
                let allowed: bool = elapsed >= self.window || (count < self.limit);
                self.entries.set(i, entry);
                proof {
                    let after = self.entries@;
                    assert forall|a: int, b: int| 0 <= a < b < after.len() implies (
                    #[trigger] after[a]).source@ != (#[trigger] after[b]).source@ by {
                        assert(before[a].source@ != before[b].source@);
                    }
                    lemma_entry_map(after);
                    let want = old(self)@.checked(source@, now).entries;
                    let got = entry_map(after);
                    assert forall|k: Seq<char>| #[trigger]
                        got.contains_key(k) == want.contains_key(k) by {
                        if want.contains_key(k) && k != source@ {
                            let j = choose|j: int|
                                0 <= j < before.len() && (#[trigger] before[j]).source@ == k;
                            assert(after[j].source@ == k);
                        }
                        if k == source@ {
                            assert(after[i as int].source@ == k);
                        }
                        if got.contains_key(k) && k != source@ {
                            let j = choose|j: int|
                                0 <= j < after.len() && (#[trigger] after[j]).source@ == k;
                            assert(before[j].source@ == k);
                        }
                    }
                    assert forall|k: Seq<char>| got.contains_key(k) implies #[trigger] got[k]
                        == want[k] by {
                        let j = choose|j: int|
                            0 <= j < after.len() && (#[trigger] after[j]).source@ == k;
                        if j != i {
                            assert(before[j].source@ == k);
                            assert(before[j].source@ != before[i as int].source@);
                        }
                    }
                    assert(got =~= want);
                }
                return allowed;
            }
            i = i + 1;
        }
        assert(!entry_map(before).contains_key(source@));
        self.entries.push(Entry { source: source.to_owned(), start: now, count: 1 });
        proof {
            let after = self.entries@;
            assert(after.drop_last() =~= before);
        }
        true
    }

    /// Forgets the sources whose windows began two windows ago or more.
    pub fn sweep(&mut self, now: u64)
        requires
            old(self).wf(),
        ensures
            final(self).wf(),
            final(self)@ == old(self)@.swept(now),
    {
        let ghost before = self.entries@;
        let mut left: Vec<Entry> = Vec::new();
        std::mem::swap(&mut left, &mut self.entries);
        let mut kept: Vec<Entry> = Vec::new();
        let ghost mut k: int = 0;
        let window: u64 = self.window;
        assert(before.skip(0) =~= before);
        assert(entry_map(before.take(0)) =~= Map::empty());
        assert(swept_map(before.take(0), window, now) =~= Map::empty());
        while left.len() > 0
            invariant
                0 <= k <= before.len(),
                k + left@.len() == before.len(),
                left@ == before.skip(k),
                distinct_sources(before),
                distinct_sources(kept@),
                forall|i: int|
                    0 <= i < kept@.len() ==> exists|j: int|
                        0 <= j < k && (#[trigger] before[j]).source@ == (
                        #[trigger] kept@[i]).source@,
                entry_map(kept@) == swept_map(before.take(k), window, now),
            decreases left@.len(),
        {
            let ghost kept0 = kept@;
            let e: Entry = left.remove(0);
            assert(e == before[k]);
            assert(left@ =~= before.skip(k + 1));
            let elapsed: u64 = if now >= e.start {
                now - e.start
            } else {
                0
            };
            assert(before.take(k + 1).drop_last() =~= before.take(k));
            if (elapsed as u128) < 2 * (window as u128) {
                proof {
                    assert forall|i: int| 0 <= i < kept0.len() implies (
                    #[trigger] kept0[i]).source@ != e.source@ by {
                        let j = choose|j: int|
                            0 <= j < k && (#[trigger] before[j]).source@ == kept0[i].source@;
                        assert(before[j].source@ != before[k].source@);
                    }
                }
                kept.push(e);
                assert(kept@.drop_last() =~= kept0);
                assert forall|i: int| 0 <= i < kept@.len() implies exists|j: int|
                    0 <= j < k + 1 && (#[trigger] before[j]).source@ == (
                    #[trigger] kept@[i]).source@ by {
                    if i == kept0.len() {
                        assert(before[k].source@ == kept@[i].source@);
                    } else {
                        let j = choose|j: int|
                            0 <= j < k && (#[trigger] before[j]).source@ == kept0[i].source@;
                        assert(before[j].source@ == kept@[i].source@);
                    }
                }
            } else {
                assert forall|i: int| 0 <= i < kept@.len() implies exists|j: int|
                    0 <= j < k + 1 && (#[trigger] before[j]).source@ == (
                    #[trigger] kept@[i]).source@ by {
                    let j = choose|j: int|
                        0 <= j < k && (#[trigger] before[j]).source@ == kept@[i].source@;
                    assert(before[j].source@ == kept@[i].source@);
                }
            }
            proof {
                k = k + 1;
            }
        }
        assert(before.take(k) =~= before);
        self.entries = kept;
        proof {
            lemma_swept_map(before, window, now);
        }
        assert(self@ =~= old(self)@.swept(now));
    }
}

spec fn swept_map(s: Seq<Entry>, window: u64, now: u64) -> Map<Seq<char>, EntryView>
    decreases s.len(),
{
    if s.len() == 0 {
        Map::empty()
    } else {
        let d = swept_map(s.drop_last(), window, now);
        if passed(s.last().start, now) < 2 * window {
            d.insert(
                s.last().source@,
                EntryView { start: s.last().start, count: s.last().count },
            )
        } else {
            d
        }
    }
}

proof fn lemma_swept_map(s: Seq<Entry>, window: u64, now: u64)
    requires
        distinct_sources(s),
    ensures
        swept_map(s, window, now) =~= entry_map(s).restrict(
            Set::new(
                |k: Seq<char>|
                    entry_map(s).contains_key(k) && passed(entry_map(s)[k].start, now) < 2
                        * window,
            ),
        ),
    decreases s.len(),
{
    if s.len() > 0 {
        let d = s.drop_last();
        assert forall|i: int, j: int| 0 <= i < j < d.len() implies (#[trigger] d[i]).source@ != (
        #[trigger] d[j]).source@ by {
            assert(s[i].source@ != s[j].source@);
        }
        lemma_swept_map(d, window, now);
        lemma_entry_map(d);
        let last = s.last().source@;
        assert(!entry_map(d).contains_key(last)) by {
            if entry_map(d).contains_key(last) {
                let i = choose|i: int| 0 <= i < d.len() && (#[trigger] d[i]).source@ == last;
                assert(s[i].source@ != s[s.len() - 1].source@);
            }
        }
    }
}

proof fn lemma_entry_count(s: Seq<Entry>)
    requires
        distinct_sources(s),
    ensures
        entry_map(s).dom().finite(),
        entry_map(s).len() == s.len(),
    decreases s.len(),
{
    if s.len() > 0 {
        let d = s.drop_last();
        assert forall|i: int, j: int| 0 <= i < j < d.len() implies (#[trigger] d[i]).source@ != (
        #[trigger] d[j]).source@ by {
            assert(s[i].source@ != s[j].source@);
        }
        lemma_entry_count(d);
        lemma_entry_map(d);
        let last = s.last().source@;
        assert(!entry_map(d).contains_key(last)) by {
            if entry_map(d).contains_key(last) {
                let i = choose|i: int| 0 <= i < d.len() && (#[trigger] d[i]).source@ == last;
                assert(s[i].source@ != s[s.len() - 1].source@);
            }
        }
        assert(entry_map(s).dom() =~= entry_map(d).dom().insert(last));
    } else {
        assert(entry_map(s).dom() =~= Set::empty());
    }
}

/// The state after a source has asked for `n` connections, all at `now`.
pub open spec fn after_attempts(rl: RateLimiterView, source: Seq<char>, now: u64, n: nat) -> RateLimiterView
    decreases n,
{
    if n == 0 {
        rl
    } else {
        after_attempts(rl, source, now, (n - 1) as nat).checked(source, now)
    }
}

proof fn lemma_attempts(rl: RateLimiterView, source: Seq<char>, now: u64, n: nat)
    requires
        rl.limit > 0,
        rl.window > 0,
        rl.starts_window(source, now),
        0 < n < u32::MAX,
    ensures
        ({
            let after = after_attempts(rl, source, now, n);
            &&& after.limit == rl.limit
            &&& after.window == rl.window
            &&& after.entries.contains_key(source)
            &&& after.entries[source] == (EntryView { start: now, count: n as u32 })
        }),
    decreases n,
{
    if n > 1 {
        lemma_attempts(rl, source, now, (n - 1) as nat);
    } else {
        assert(after_attempts(rl, source, now, 0) == rl);
    }
}

/// In a window of a source exactly the first `limit` connections may proceed.
pub proof fn allows_exactly_limit_per_window(
    rl: RateLimiterView,
    source: Seq<char>,
    now: u64,
    n: nat,
)
    requires
        rl.limit > 0,
        rl.window > 0,
        rl.starts_window(source, now),
        n < u32::MAX,
    ensures
        after_attempts(rl, source, now, n).allows(source, now) <==> n < rl.limit,
{
    if n > 0 {
        lemma_attempts(rl, source, now, n);
    }
}

/// A limit of 0 refuses nothing.
pub proof fn zero_limit_allows_everything(rl: RateLimiterView, source: Seq<char>, now: u64)
    requires
        rl.limit == 0,
    ensures
        rl.allows(source, now),
        rl.checked(source, now) == rl,
{
}

/// When its window has passed, a source may connect again.
pub proof fn a_new_window_allows_again(rl: RateLimiterView, source: Seq<char>, now: u64)
    requires
        rl.starts_window(source, now),
    ensures
        rl.allows(source, now),
{
}

/// A connection of one source changes nothing for another.
pub proof fn sources_are_independent(
    rl: RateLimiterView,
    a: Seq<char>,
    b: Seq<char>,
    now: u64,
    later: u64,
)
    requires
        a != b,
    ensures
        rl.checked(a, now).allows(b, later) == rl.allows(b, later),
{
}

/// Sweeping changes nothing for what may connect.
pub proof fn sweeping_keeps_decisions(
    rl: RateLimiterView,
    source: Seq<char>,
    now: u64,
    later: u64,
)
    requires
        now <= later,
    ensures
        rl.swept(now).allows(source, later) == rl.allows(source, later),
{
}

} // verus!
