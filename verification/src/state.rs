//! The seen-state cache: a cross-run mapping from deduplication keys to
//! the instant they last alerted, with TTL-based freshness queries and
//! the per-run suppression pass.

use vstd::prelude::*;

use crate::findings::{Finding, FindingModel, finding_views, spec_dedup_key};
use crate::strutil::str_eq;

verus! {

/// The persisted cross-run state: which deduplication keys last alerted
/// when, in seconds since the Unix epoch. Loading and saving the
/// persisted document is the caller's business; this type owns the
/// mapping and its freshness policy.
pub struct SeenState {
    entries: Vec<(String, i64)>,
}

/// The map an entry list denotes; a later entry overwrites an earlier
/// one with the same key.
pub open spec fn entries_map(s: Seq<(String, i64)>) -> Map<Seq<char>, i64>
    decreases s.len(),
{
    if s.len() == 0 {
        Map::empty()
    } else {
        entries_map(s.drop_last()).insert(s.last().0@, s.last().1)
    }
}

/// Freshness of a key: never alerted, or aged strictly past the TTL.
/// An age exactly equal to the TTL is not new.
pub open spec fn spec_is_new(
    m: Map<Seq<char>, i64>,
    key: Seq<char>,
    now: i64,
    ttl_minutes: i64,
) -> bool {
    ||| !m.dom().contains(key)
    ||| now - m[key] > ttl_minutes * 60
}

/// The deduplication key of a finding model.
pub open spec fn model_key(f: FindingModel) -> Seq<char> {
    spec_dedup_key(f.rule, f.identity, f.event)
}

/// The findings that survive a suppression pass: scanned in order, a
/// finding is kept iff its key is new, and a kept key is marked at
/// once, so a later duplicate within the same run is suppressed too.
pub open spec fn spec_filter_new(
    m: Map<Seq<char>, i64>,
    fs: Seq<FindingModel>,
    now: i64,
    ttl_minutes: i64,
) -> Seq<FindingModel>
    decreases fs.len(),
{
    if fs.len() == 0 {
        Seq::empty()
    } else {
        let k = model_key(fs.first());
        if spec_is_new(m, k, now, ttl_minutes) {
            seq![fs.first()] + spec_filter_new(m.insert(k, now), fs.drop_first(), now, ttl_minutes)
        } else {
            spec_filter_new(m, fs.drop_first(), now, ttl_minutes)
        }
    }
}

/// The cache state a suppression pass leaves behind.
pub open spec fn spec_mark_all(
    m: Map<Seq<char>, i64>,
    fs: Seq<FindingModel>,
    now: i64,
    ttl_minutes: i64,
) -> Map<Seq<char>, i64>
    decreases fs.len(),
{
    if fs.len() == 0 {
        m
    } else {
        let k = model_key(fs.first());
        if spec_is_new(m, k, now, ttl_minutes) {
            spec_mark_all(m.insert(k, now), fs.drop_first(), now, ttl_minutes)
        } else {
            spec_mark_all(m, fs.drop_first(), now, ttl_minutes)
        }
    }
}

proof fn lemma_map_at(s: Seq<(String, i64)>, i: int)
    requires
        0 <= i < s.len(),
        forall|a: int, b: int| 0 <= a < b < s.len() ==> (#[trigger] s[a].0@) != (#[trigger] s[b].0@),
    ensures
        entries_map(s).dom().contains(s[i].0@),
        entries_map(s)[s[i].0@] == s[i].1,
    decreases s.len(),
{
    if i < s.len() - 1 {
        assert(s[i].0@ != s[s.len() - 1].0@);
        assert forall|a: int, b: int|
            0 <= a < b < s.drop_last().len() implies (#[trigger] s.drop_last()[a].0@) != (
        #[trigger] s.drop_last()[b].0@) by {
            assert(s.drop_last()[a] == s[a] && s.drop_last()[b] == s[b]);
        }
        lemma_map_at(s.drop_last(), i);
    }
}

proof fn lemma_map_absent(s: Seq<(String, i64)>, key: Seq<char>)
    requires
        forall|j: int| 0 <= j < s.len() ==> (#[trigger] s[j].0@) != key,
    ensures
        !entries_map(s).dom().contains(key),
    decreases s.len(),
{
    if s.len() > 0 {
        assert forall|j: int| 0 <= j < s.drop_last().len() implies (#[trigger] s.drop_last()[j].0@)
            != key by {
            assert(s.drop_last()[j] == s[j]);
        }
        lemma_map_absent(s.drop_last(), key);
    }
}

proof fn lemma_map_update(s: Seq<(String, i64)>, i: int, v: i64)
    requires
        0 <= i < s.len(),
        forall|a: int, b: int| 0 <= a < b < s.len() ==> (#[trigger] s[a].0@) != (#[trigger] s[b].0@),
    ensures
        entries_map(s.update(i, (s[i].0, v))) == entries_map(s).insert(s[i].0@, v),
    decreases s.len(),
{
    let s2 = s.update(i, (s[i].0, v));
    if i == s.len() - 1 {
        assert(s2.drop_last() =~= s.drop_last());
        assert(s2.last() == (s[i].0, v));
        assert(entries_map(s.drop_last()).insert(s[i].0@, v) =~= entries_map(
            s.drop_last(),
        ).insert(s[i].0@, s[i].1).insert(s[i].0@, v));
    } else {
        assert(s2.drop_last() =~= s.drop_last().update(i, (s[i].0, v)));
        assert(s.drop_last()[i] == s[i]);
        assert forall|a: int, b: int|
            0 <= a < b < s.drop_last().len() implies (#[trigger] s.drop_last()[a].0@) != (
        #[trigger] s.drop_last()[b].0@) by {
            assert(s.drop_last()[a] == s[a] && s.drop_last()[b] == s[b]);
        }
        lemma_map_update(s.drop_last(), i, v);
        assert(s2.last() == s.last());
        assert(s[i].0@ != s.last().0@);
        assert(entries_map(s.drop_last()).insert(s[i].0@, v).insert(s.last().0@, s.last().1)
            =~= entries_map(s.drop_last()).insert(s.last().0@, s.last().1).insert(s[i].0@, v));
    }
}

impl View for SeenState {
    type V = Map<Seq<char>, i64>;

    closed spec fn view(&self) -> Map<Seq<char>, i64> {
        entries_map(self.entries@)
    }
}

impl SeenState {
    /// Well-formed: one entry per key.
    pub closed spec fn wf(&self) -> bool {
        forall|a: int, b: int|
            0 <= a < b < self.entries@.len() ==> (#[trigger] self.entries@[a].0@) != (
            #[trigger] self.entries@[b].0@)
    }

    /// An empty cache: the state of a fresh deployment, and the recovery
    /// value when persisted state is missing or corrupt.
    pub fn new() -> (s: Self)
        ensures
            s.wf(),
            s@ == Map::<Seq<char>, i64>::empty(),
    {
        SeenState { entries: Vec::new() }
    }

    /// Index of the entry carrying `key`, if one exists.
    fn find_entry(&self, key: &str) -> (r: Option<usize>)
        ensures
            match r {
                Some(i) => i < self.entries@.len() && self.entries@[i as int].0@ == key@,
                None => forall|j: int|
                    0 <= j < self.entries@.len() ==> (#[trigger] self.entries@[j].0@) != key@,
            },
    {
        let mut i: usize = 0;
        while i < self.entries.len()
            invariant
                i <= self.entries@.len(),
                forall|j: int| 0 <= j < i ==> (#[trigger] self.entries@[j].0@) != key@,
            decreases self.entries@.len() - i,
        {
            if str_eq(self.entries[i].0.as_str(), key) {
                return Some(i);
            }
            i += 1;
        }
        None
    }

    /// Whether `key` is worth alerting at `now`: never seen, or seen
    /// longer than `ttl_minutes` ago. An age exactly equal to the TTL is
    /// not new. Computed in 128-bit arithmetic, so no instant or TTL can
    /// overflow.
    pub fn is_new(&self, key: &str, now: i64, ttl_minutes: i64) -> (r: bool)
        requires
            self.wf(),
        ensures
            r == spec_is_new(self@, key@, now, ttl_minutes),
    {
        match self.find_entry(key) {
            None => {
                proof {
                    lemma_map_absent(self.entries@, key@);
                }
                true
            },
            Some(i) => {
                let last: i64 = self.entries[i].1;
                proof {
                    lemma_map_at(self.entries@, i as int);
                }
                (now as i128) - (last as i128) > (ttl_minutes as i128) * 60
            },
        }
    }

    /// Records that `key` alerted at `now`, overwriting any earlier
    /// instant. Does not itself persist anything.
    pub fn mark_seen(&mut self, key: String, now: i64)
        requires
            old(self).wf(),
        ensures
            final(self).wf(),
            final(self)@ == old(self)@.insert(key@, now),
    {
        let idx = self.find_entry(key.as_str());
        match idx {
            Some(i) => {
                let ghost prev = self.entries@;
                let e = self.entries.remove(i);
                self.entries.insert(i, (e.0, now));
                proof {
                    assert(self.entries@ =~= prev.update(i as int, (prev[i as int].0, now)));
                    lemma_map_update(prev, i as int, now);
                    assert forall|a: int, b: int|
                        0 <= a < b < self.entries@.len() implies (#[trigger] self.entries@[a].0@)
                        != (#[trigger] self.entries@[b].0@) by {
                        assert(self.entries@[a].0@ == prev[a].0@ && self.entries@[b].0@
                            == prev[b].0@);
                    }
                }
            },
            None => {
                let ghost prev = self.entries@;
                self.entries.push((key, now));
                proof {
                    assert(self.entries@.drop_last() =~= prev);
                    assert(self.entries@.last().0@ == key@ && self.entries@.last().1 == now);
                    assert forall|a: int, b: int|
                        0 <= a < b < self.entries@.len() implies (#[trigger] self.entries@[a].0@)
                        != (#[trigger] self.entries@[b].0@) by {
                        if b < prev.len() {
                            assert(self.entries@[a] == prev[a] && self.entries@[b] == prev[b]);
                        } else {
                            assert(self.entries@[a] == prev[a]);
                            assert(prev[a].0@ != key@);
                        }
                    }
                }
            },
        }
    }

    /// Rebuilds a cache from persisted (key, instant) pairs; a later
    /// duplicate of a key overwrites an earlier one.
    pub fn from_entries(pairs: Vec<(String, i64)>) -> (s: Self)
        ensures
            s.wf(),
            s@ == entries_map(pairs@),
    {
        let mut s = SeenState::new();
        let mut i: usize = 0;
        proof {
            assert(pairs@.take(0) =~= Seq::<(String, i64)>::empty());
        }
        while i < pairs.len()
            invariant
                i <= pairs@.len(),
                s.wf(),
                s@ == entries_map(pairs@.take(i as int)),
            decreases pairs@.len() - i,
        {
            proof {
                assert(pairs@.take(i + 1).drop_last() =~= pairs@.take(i as int));
                assert(pairs@.take(i + 1).last() == pairs@[i as int]);
            }
            let p = &pairs[i];
            s.mark_seen(p.0.clone(), p.1);
            i += 1;
        }
        proof {
            assert(pairs@.take(pairs@.len() as int) =~= pairs@);
        }
        s
    }

    /// The entry list, for persisting: the map it denotes is the cache's
    /// own.
    pub fn snapshot(&self) -> (r: &Vec<(String, i64)>)
        ensures
            entries_map(r@) == self@,
    {
        &self.entries
    }

    /// Runs the suppression discipline over `findings` in order: keeps
    /// each finding whose key is new at `now`, marking the key at once,
    /// so duplicates within the run suppress each other as well as
    /// against history.
    pub fn filter_new(&mut self, findings: &Vec<Finding>, now: i64, ttl_minutes: i64) -> (kept:
        Vec<Finding>)
        requires
            old(self).wf(),
        ensures
            final(self).wf(),
            final(self)@ == spec_mark_all(old(self)@, finding_views(findings@), now, ttl_minutes),
            finding_views(kept@) == spec_filter_new(
                old(self)@,
                finding_views(findings@),
                now,
                ttl_minutes,
            ),
    {
        let ghost fs = finding_views(findings@);
        let ghost m0 = old(self)@;
        let mut kept: Vec<Finding> = Vec::new();
        let mut i: usize = 0;
        proof {
            assert(fs.skip(0) =~= fs);
            assert(finding_views(kept@) + spec_filter_new(self@, fs, now, ttl_minutes)
                =~= spec_filter_new(m0, fs, now, ttl_minutes));
        }
        while i < findings.len()
            invariant
                i <= findings@.len(),
                self.wf(),
                fs == finding_views(findings@),
                fs.len() == findings@.len(),
                spec_filter_new(m0, fs, now, ttl_minutes) == finding_views(kept@)
                    + spec_filter_new(self@, fs.skip(i as int), now, ttl_minutes),
                spec_mark_all(m0, fs, now, ttl_minutes) == spec_mark_all(
                    self@,
                    fs.skip(i as int),
                    now,
                    ttl_minutes,
                ),
            decreases findings@.len() - i,
        {
            let f = &findings[i];
            let key = f.dedup_key();
            let ghost rest = fs.skip(i as int);
            let ghost prev_kept = kept@;
            let ghost m_cur = self@;
            proof {
                assert(rest.len() == fs.len() - i);
                assert(rest.first() == fs[i as int]);
                assert(rest.drop_first() =~= fs.skip(i + 1));
                assert(fs[i as int] == findings@[i as int]@);
                assert(model_key(rest.first()) == key@);
            }
            if self.is_new(key.as_str(), now, ttl_minutes) {
                kept.push(f.clone());
                self.mark_seen(key, now);
                proof {
                    assert(finding_views(kept@) =~= finding_views(prev_kept).push(fs[i as int]));
                    assert(spec_filter_new(m_cur, rest, now, ttl_minutes) == seq![rest.first()]
                        + spec_filter_new(self@, fs.skip(i + 1), now, ttl_minutes));
                    assert(finding_views(kept@) + spec_filter_new(self@, fs.skip(i + 1), now, ttl_minutes)
                        =~= finding_views(prev_kept) + spec_filter_new(m_cur, rest, now, ttl_minutes));
                }
            } else {
                proof {
                    assert(spec_filter_new(m_cur, rest, now, ttl_minutes) == spec_filter_new(
                        self@,
                        fs.skip(i + 1),
                        now,
                        ttl_minutes,
                    ));
                    assert(spec_mark_all(m_cur, rest, now, ttl_minutes) == spec_mark_all(
                        self@,
                        fs.skip(i + 1),
                        now,
                        ttl_minutes,
                    ));
                }
            }
            i += 1;
        }
        proof {
            assert(fs.skip(fs.len() as int) =~= Seq::<FindingModel>::empty());
            assert(finding_views(kept@) + Seq::<FindingModel>::empty() =~= finding_views(kept@));
        }
        kept
    }
}

/// A key inside its TTL window: present, and not yet aged past the TTL.
pub open spec fn suppressed(
    m: Map<Seq<char>, i64>,
    key: Seq<char>,
    now: i64,
    ttl_minutes: i64,
) -> bool {
    m.dom().contains(key) && now - m[key] <= ttl_minutes * 60
}

/// TTL boundary: with a key on record, a query whose age equals the TTL
/// exactly is not new, and a query aged past the TTL by any positive
/// amount is new.
pub proof fn lemma_ttl_boundary(m: Map<Seq<char>, i64>, key: Seq<char>, now: i64, ttl_minutes: i64)
    requires
        m.dom().contains(key),
    ensures
        now - m[key] == ttl_minutes * 60 ==> !spec_is_new(m, key, now, ttl_minutes),
        now - m[key] > ttl_minutes * 60 ==> spec_is_new(m, key, now, ttl_minutes),
{
}

proof fn lemma_mark_all_preserves_suppressed(
    m: Map<Seq<char>, i64>,
    fs: Seq<FindingModel>,
    now: i64,
    ttl_minutes: i64,
    key: Seq<char>,
)
    requires
        ttl_minutes >= 0,
        suppressed(m, key, now, ttl_minutes),
    ensures
        suppressed(spec_mark_all(m, fs, now, ttl_minutes), key, now, ttl_minutes),
    decreases fs.len(),
{
    if fs.len() > 0 {
        let k = model_key(fs.first());
        if spec_is_new(m, k, now, ttl_minutes) {
            assert(suppressed(m.insert(k, now), key, now, ttl_minutes));
            lemma_mark_all_preserves_suppressed(
                m.insert(k, now),
                fs.drop_first(),
                now,
                ttl_minutes,
                key,
            );
        } else {
            lemma_mark_all_preserves_suppressed(m, fs.drop_first(), now, ttl_minutes, key);
        }
    }
}

proof fn lemma_mark_all_covers(
    m: Map<Seq<char>, i64>,
    fs: Seq<FindingModel>,
    now: i64,
    ttl_minutes: i64,
)
    requires
        ttl_minutes >= 0,
    ensures
        forall|i: int|
            0 <= i < fs.len() ==> suppressed(
                spec_mark_all(m, fs, now, ttl_minutes),
                model_key(#[trigger] fs[i]),
                now,
                ttl_minutes,
            ),
    decreases fs.len(),
{
    if fs.len() > 0 {
        let k = model_key(fs.first());
        let m1 = if spec_is_new(m, k, now, ttl_minutes) {
            m.insert(k, now)
        } else {
            m
        };
        assert(suppressed(m1, k, now, ttl_minutes));
        lemma_mark_all_preserves_suppressed(m1, fs.drop_first(), now, ttl_minutes, k);
        lemma_mark_all_covers(m1, fs.drop_first(), now, ttl_minutes);
        assert(spec_mark_all(m, fs, now, ttl_minutes) == spec_mark_all(
            m1,
            fs.drop_first(),
            now,
            ttl_minutes,
        ));
        assert forall|i: int| 0 <= i < fs.len() implies suppressed(
            spec_mark_all(m, fs, now, ttl_minutes),
            model_key(#[trigger] fs[i]),
            now,
            ttl_minutes,
        ) by {
            if i == 0 {
                assert(fs[0] == fs.first());
            } else {
                assert(fs.drop_first()[i - 1] == fs[i]);
            }
        }
    }
}

proof fn lemma_all_suppressed_filter_empty(
    m: Map<Seq<char>, i64>,
    fs: Seq<FindingModel>,
    now: i64,
    ttl_minutes: i64,
)
    requires
        forall|i: int|
            0 <= i < fs.len() ==> suppressed(m, model_key(#[trigger] fs[i]), now, ttl_minutes),
    ensures
        spec_filter_new(m, fs, now, ttl_minutes) == Seq::<FindingModel>::empty(),
    decreases fs.len(),
{
    if fs.len() > 0 {
        assert(suppressed(m, model_key(fs[0]), now, ttl_minutes));
        assert(fs[0] == fs.first());
        assert(!spec_is_new(m, model_key(fs.first()), now, ttl_minutes));
        assert forall|i: int| 0 <= i < fs.drop_first().len() implies suppressed(
            m,
            model_key(#[trigger] fs.drop_first()[i]),
            now,
            ttl_minutes,
        ) by {
            assert(fs.drop_first()[i] == fs[i + 1]);
        }
        lemma_all_suppressed_filter_empty(m, fs.drop_first(), now, ttl_minutes);
    }
}

/// Idempotent suppression: once a pass over `fs` has marked its keys at
/// `now`, an immediate second pass over the same findings at the same
/// instant keeps nothing.
pub proof fn lemma_idempotent_suppression(
    m: Map<Seq<char>, i64>,
    fs: Seq<FindingModel>,
    now: i64,
    ttl_minutes: i64,
)
    requires
        ttl_minutes >= 0,
    ensures
        spec_filter_new(spec_mark_all(m, fs, now, ttl_minutes), fs, now, ttl_minutes)
            == Seq::<FindingModel>::empty(),
{
    lemma_mark_all_covers(m, fs, now, ttl_minutes);
    lemma_all_suppressed_filter_empty(
        spec_mark_all(m, fs, now, ttl_minutes),
        fs,
        now,
        ttl_minutes,
    );
}

} // verus!
