//! The normalized event model: single events as the parsers emit them,
//! and per-(identity, event-kind) timestamp groups as the rule engine
//! consumes them.

use vstd::prelude::*;

verus! {

/// One normalized error event: who acted, what kind of event it was, and
/// when, in seconds since the Unix epoch. Identity and event-kind are
/// case-sensitive exact-match keys.
pub struct EventRecord {
    pub identity: String,
    pub event: String,
    pub ts: i64,
}

/// The mathematical shape of an [`EventRecord`].
#[verifier::ext_equal]
pub ghost struct EventRecordModel {
    pub identity: Seq<char>,
    pub event: Seq<char>,
    pub ts: i64,
}

impl View for EventRecord {
    type V = EventRecordModel;

    open spec fn view(&self) -> EventRecordModel {
        EventRecordModel { identity: self.identity@, event: self.event@, ts: self.ts }
    }
}

/// The views of a sequence of owned records.
pub open spec fn record_models(s: Seq<EventRecord>) -> Seq<EventRecordModel> {
    s.map_values(|r: EventRecord| r@)
}

/// All timestamps of one (identity, event-kind) group.
pub struct EventGroup {
    pub identity: String,
    pub event: String,
    pub timestamps: Vec<i64>,
}

/// The timestamps that the records with the given key carry, in record
/// order.
pub open spec fn timestamps_for(records: Seq<EventRecordModel>, id: Seq<char>, ev: Seq<char>) -> Seq<i64>
    decreases records.len(),
{
    if records.len() == 0 {
        Seq::empty()
    } else {
        timestamps_for(records.drop_last(), id, ev) + (if records.last().identity == id
            && records.last().event == ev {
            seq![records.last().ts]
        } else {
            Seq::empty()
        })
    }
}

/// Whether some record carries the given key.
pub open spec fn has_key(records: Seq<EventRecordModel>, id: Seq<char>, ev: Seq<char>) -> bool {
    exists|k: int|
        0 <= k < records.len() && records[k].identity == id && records[k].event == ev
}

/// Index of the first record carrying the given key; the record count
/// when none does.
pub open spec fn first_key_index(records: Seq<EventRecordModel>, id: Seq<char>, ev: Seq<char>) -> int
    decreases records.len(),
{
    if records.len() == 0 {
        0
    } else if records.first().identity == id && records.first().event == ev {
        0
    } else {
        1 + first_key_index(records.drop_first(), id, ev)
    }
}

/// What it means for `groups` to be `records` grouped by key: keys are
/// pairwise distinct, every group's timestamps are exactly the record
/// timestamps of its key in record order, every group's key occurs in the
/// records, every record's key has a group, and groups stand in the
/// order their keys first occur.
pub open spec fn groups_of(records: Seq<EventRecordModel>, groups: Seq<EventGroup>) -> bool {
    &&& forall|i: int, j: int|
        0 <= i < j < groups.len() ==> !(#[trigger] groups[i].identity@ == #[trigger] groups[j].identity@
            && groups[i].event@ == groups[j].event@)
    &&& forall|i: int|
        0 <= i < groups.len() ==> #[trigger] groups[i].timestamps@ == timestamps_for(
            records,
            groups[i].identity@,
            groups[i].event@,
        )
    &&& forall|i: int|
        0 <= i < groups.len() ==> has_key(records, #[trigger] groups[i].identity@, groups[i].event@)
    &&& forall|k: int|
        0 <= k < records.len() ==> exists|i: int|
            0 <= i < groups.len() && #[trigger] groups[i].identity@ == (#[trigger] records[k]).identity
                && groups[i].event@ == records[k].event
    &&& forall|i: int, j: int|
        0 <= i < j < groups.len() ==> #[trigger] first_key_index(
            records,
            groups[i].identity@,
            groups[i].event@,
        ) < #[trigger] first_key_index(records, groups[j].identity@, groups[j].event@)
}

proof fn lemma_timestamps_for_push(
    records: Seq<EventRecordModel>,
    m: EventRecordModel,
    id: Seq<char>,
    ev: Seq<char>,
)
    ensures
        timestamps_for(records.push(m), id, ev) == if m.identity == id && m.event == ev {
            timestamps_for(records, id, ev).push(m.ts)
        } else {
            timestamps_for(records, id, ev)
        },
{
    assert(records.push(m).drop_last() =~= records);
    assert(records.push(m).last() == m);
    if m.identity == id && m.event == ev {
        assert(timestamps_for(records, id, ev) + seq![m.ts] =~= timestamps_for(
            records,
            id,
            ev,
        ).push(m.ts));
    } else {
        assert(timestamps_for(records, id, ev) + Seq::<i64>::empty() =~= timestamps_for(
            records,
            id,
            ev,
        ));
    }
}

proof fn lemma_absent_key_empty(records: Seq<EventRecordModel>, id: Seq<char>, ev: Seq<char>)
    requires
        !has_key(records, id, ev),
    ensures
        timestamps_for(records, id, ev) == Seq::<i64>::empty(),
    decreases records.len(),
{
    if records.len() > 0 {
        assert(!has_key(records.drop_last(), id, ev)) by {
            if has_key(records.drop_last(), id, ev) {
                let k = choose|k: int|
                    0 <= k < records.drop_last().len() && records.drop_last()[k].identity == id
                        && records.drop_last()[k].event == ev;
                assert(records[k].identity == id && records[k].event == ev);
            }
        }
        lemma_absent_key_empty(records.drop_last(), id, ev);
        assert(!(records.last().identity == id && records.last().event == ev)) by {
            if records.last().identity == id && records.last().event == ev {
                assert(records[records.len() - 1].identity == id);
            }
        }
        assert(Seq::<i64>::empty() + Seq::<i64>::empty() =~= Seq::<i64>::empty());
    }
}

proof fn lemma_has_key_drop_first(records: Seq<EventRecordModel>, id: Seq<char>, ev: Seq<char>)
    requires
        records.len() > 0,
        !(records.first().identity == id && records.first().event == ev),
    ensures
        has_key(records, id, ev) <==> has_key(records.drop_first(), id, ev),
{
    if has_key(records, id, ev) {
        let k = choose|k: int|
            0 <= k < records.len() && records[k].identity == id && records[k].event == ev;
        assert(records.drop_first()[k - 1].identity == id && records.drop_first()[k - 1].event
            == ev);
    }
    if has_key(records.drop_first(), id, ev) {
        let k = choose|k: int|
            0 <= k < records.drop_first().len() && records.drop_first()[k].identity == id
                && records.drop_first()[k].event == ev;
        assert(records[k + 1].identity == id && records[k + 1].event == ev);
    }
}

proof fn lemma_first_key_index_bounds(records: Seq<EventRecordModel>, id: Seq<char>, ev: Seq<char>)
    ensures
        0 <= first_key_index(records, id, ev) <= records.len(),
        has_key(records, id, ev) ==> first_key_index(records, id, ev) < records.len(),
        !has_key(records, id, ev) ==> first_key_index(records, id, ev) == records.len(),
    decreases records.len(),
{
    if records.len() == 0 {
    } else if records.first().identity == id && records.first().event == ev {
        assert(records[0].identity == id && records[0].event == ev);
    } else {
        lemma_has_key_drop_first(records, id, ev);
        lemma_first_key_index_bounds(records.drop_first(), id, ev);
    }
}

proof fn lemma_first_key_index_push(
    records: Seq<EventRecordModel>,
    m: EventRecordModel,
    id: Seq<char>,
    ev: Seq<char>,
)
    ensures
        has_key(records, id, ev) ==> first_key_index(records.push(m), id, ev) == first_key_index(
            records,
            id,
            ev,
        ),
        !has_key(records, id, ev) && m.identity == id && m.event == ev ==> first_key_index(
            records.push(m),
            id,
            ev,
        ) == records.len(),
    decreases records.len(),
{
    if records.len() == 0 {
        assert(records.push(m).len() == 1);
        assert(records.push(m).first() == m);
    } else {
        assert(records.push(m).first() == records.first());
        if records.first().identity == id && records.first().event == ev {
            assert(records[0].identity == id && records[0].event == ev);
        } else {
            assert(records.push(m).drop_first() =~= records.drop_first().push(m));
            lemma_has_key_drop_first(records, id, ev);
            lemma_first_key_index_push(records.drop_first(), m, id, ev);
        }
    }
}

/// Index of the group carrying the given key, if one exists.
fn find_group(groups: &Vec<EventGroup>, id: &String, ev: &String) -> (r: Option<usize>)
    ensures
        match r {
            Some(i) => i < groups@.len() && groups@[i as int].identity@ == id@
                && groups@[i as int].event@ == ev@,
            None => forall|j: int|
                0 <= j < groups@.len() ==> !(#[trigger] groups@[j].identity@ == id@
                    && groups@[j].event@ == ev@),
        },
{
    let mut i: usize = 0;
    while i < groups.len()
        invariant
            i <= groups@.len(),
            forall|j: int|
                0 <= j < i ==> !(#[trigger] groups@[j].identity@ == id@ && groups@[j].event@
                    == ev@),
        decreases groups@.len() - i,
    {
        let g = &groups[i];
        if g.identity == *id && g.event == *ev {
            return Some(i);
        }
        i += 1;
    }
    None
}

/// Groups `records` by (identity, event-kind), keeping each key's
/// timestamps in record order and the groups in first-occurrence order.
#[verifier::rlimit(60)]
pub fn group_events(records: &Vec<EventRecord>) -> (groups: Vec<EventGroup>)
    ensures
        groups_of(record_models(records@), groups@),
{
    let ghost rs = record_models(records@);
    let mut groups: Vec<EventGroup> = Vec::new();
    let mut k: usize = 0;
    proof {
        assert(rs.take(0) =~= Seq::<EventRecordModel>::empty());
    }
    while k < records.len()
        invariant
            rs == record_models(records@),
            rs.len() == records@.len(),
            k <= records@.len(),
            groups_of(rs.take(k as int), groups@),
        decreases records@.len() - k,
    {
        let rec = &records[k];
        let ghost m = records@[k as int]@;
        let ghost prev = rs.take(k as int);
        let ghost prev_groups = groups@;
        proof {
            assert(rs.take(k + 1) =~= prev.push(m));
        }
        let idx = find_group(&groups, &rec.identity, &rec.event);
        match idx {
            Some(i) => {
                let mut g = groups.remove(i);
                g.timestamps.push(rec.ts);
                groups.insert(i, g);
                proof {
                    assert(groups@ =~= prev_groups.update(i as int, g));
                    assert forall|j: int| 0 <= j < groups@.len() implies #[trigger] groups@[j].timestamps@
                        == timestamps_for(prev.push(m), groups@[j].identity@, groups@[j].event@) by {
                        lemma_timestamps_for_push(prev, m, groups@[j].identity@, groups@[j].event@);
                        if j != i {
                            // the new record's key belongs to group i alone
                            assert(!(m.identity == groups@[j].identity@ && m.event
                                == groups@[j].event@));
                        }
                    }
                    assert forall|j: int| 0 <= j < groups@.len() implies has_key(
                        prev.push(m),
                        #[trigger] groups@[j].identity@,
                        groups@[j].event@,
                    ) by {
                        let w = choose|w: int|
                            0 <= w < prev.len() && prev[w].identity == prev_groups[j].identity@
                                && prev[w].event == prev_groups[j].event@;
                        assert(prev.push(m)[w] == prev[w]);
                    }
                    assert forall|k2: int| 0 <= k2 < prev.push(m).len() implies exists|i2: int|
                        0 <= i2 < groups@.len() && #[trigger] groups@[i2].identity@ == (#[trigger] prev.push(
                            m,
                        )[k2]).identity && groups@[i2].event@ == prev.push(m)[k2].event by {
                        if k2 < prev.len() {
                            let i2 = choose|i2: int|
                                0 <= i2 < prev_groups.len() && #[trigger] prev_groups[i2].identity@
                                    == prev[k2].identity && prev_groups[i2].event@
                                    == prev[k2].event;
                            assert(groups@[i2].identity@ == prev.push(m)[k2].identity
                                && groups@[i2].event@ == prev.push(m)[k2].event);
                        } else {
                            assert(groups@[i as int].identity@ == m.identity
                                && groups@[i as int].event@ == m.event);
                        }
                    }
                    assert forall|a: int, b: int| 0 <= a < b < groups@.len() implies
                        #[trigger] first_key_index(prev.push(m), groups@[a].identity@, groups@[a].event@)
                        < #[trigger] first_key_index(prev.push(m), groups@[b].identity@, groups@[b].event@) by {
                        assert(groups@[a].identity@ == prev_groups[a].identity@ && groups@[a].event@
                            == prev_groups[a].event@);
                        assert(groups@[b].identity@ == prev_groups[b].identity@ && groups@[b].event@
                            == prev_groups[b].event@);
                        assert(has_key(prev, prev_groups[a].identity@, prev_groups[a].event@));
                        assert(has_key(prev, prev_groups[b].identity@, prev_groups[b].event@));
                        assert(first_key_index(prev, prev_groups[a].identity@, prev_groups[a].event@)
                            < first_key_index(prev, prev_groups[b].identity@, prev_groups[b].event@));
                        lemma_first_key_index_push(prev, m, groups@[a].identity@, groups@[a].event@);
                        lemma_first_key_index_push(prev, m, groups@[b].identity@, groups@[b].event@);
                        assert(has_key(prev, groups@[a].identity@, groups@[a].event@));
                        assert(first_key_index(prev.push(m), groups@[a].identity@, groups@[a].event@)
                            == first_key_index(prev, prev_groups[a].identity@, prev_groups[a].event@));
                        assert(first_key_index(prev.push(m), groups@[b].identity@, groups@[b].event@)
                            == first_key_index(prev, prev_groups[b].identity@, prev_groups[b].event@));
                    }
                    assert(groups_of(rs.take(k + 1), groups@));
                }
            },
            None => {
                let mut ts: Vec<i64> = Vec::new();
                ts.push(rec.ts);
                let g = EventGroup {
                    identity: rec.identity.clone(),
                    event: rec.event.clone(),
                    timestamps: ts,
                };
                groups.push(g);
                proof {
                    let n = prev_groups.len() as int;
                    assert(!has_key(prev, m.identity, m.event)) by {
                        if has_key(prev, m.identity, m.event) {
                            let w = choose|w: int|
                                0 <= w < prev.len() && prev[w].identity == m.identity
                                    && prev[w].event == m.event;
                            let i2 = choose|i2: int|
                                0 <= i2 < prev_groups.len() && #[trigger] prev_groups[i2].identity@
                                    == prev[w].identity && prev_groups[i2].event@ == prev[w].event;
                        }
                    }
                    lemma_absent_key_empty(prev, m.identity, m.event);
                    assert forall|j: int| 0 <= j < groups@.len() implies #[trigger] groups@[j].timestamps@
                        == timestamps_for(prev.push(m), groups@[j].identity@, groups@[j].event@) by {
                        lemma_timestamps_for_push(prev, m, groups@[j].identity@, groups@[j].event@);
                        if j < n {
                            assert(groups@[j] == prev_groups[j]);
                            assert(!(m.identity == groups@[j].identity@ && m.event
                                == groups@[j].event@));
                        } else {
                            assert(groups@[j].timestamps@ =~= Seq::<i64>::empty().push(m.ts));
                        }
                    }
                    assert forall|j: int| 0 <= j < groups@.len() implies has_key(
                        prev.push(m),
                        #[trigger] groups@[j].identity@,
                        groups@[j].event@,
                    ) by {
                        if j < n {
                            let w = choose|w: int|
                                0 <= w < prev.len() && prev[w].identity == prev_groups[j].identity@
                                    && prev[w].event == prev_groups[j].event@;
                            assert(prev.push(m)[w] == prev[w]);
                        } else {
                            assert(prev.push(m)[prev.len() as int] == m);
                        }
                    }
                    assert forall|k2: int| 0 <= k2 < prev.push(m).len() implies exists|i2: int|
                        0 <= i2 < groups@.len() && #[trigger] groups@[i2].identity@ == (#[trigger] prev.push(
                            m,
                        )[k2]).identity && groups@[i2].event@ == prev.push(m)[k2].event by {
                        if k2 < prev.len() {
                            let i2 = choose|i2: int|
                                0 <= i2 < prev_groups.len() && #[trigger] prev_groups[i2].identity@
                                    == prev[k2].identity && prev_groups[i2].event@
                                    == prev[k2].event;
                            assert(groups@[i2].identity@ == prev.push(m)[k2].identity
                                && groups@[i2].event@ == prev.push(m)[k2].event);
                        } else {
                            assert(groups@[n].identity@ == m.identity && groups@[n].event@
                                == m.event);
                        }
                    }
                    assert forall|a: int, b: int| 0 <= a < b < groups@.len() implies
                        #[trigger] first_key_index(prev.push(m), groups@[a].identity@, groups@[a].event@)
                        < #[trigger] first_key_index(prev.push(m), groups@[b].identity@, groups@[b].event@) by {
                        assert(has_key(prev, prev_groups[a].identity@, prev_groups[a].event@));
                        lemma_first_key_index_push(prev, m, groups@[a].identity@, groups@[a].event@);
                        if b < n {
                            assert(has_key(prev, prev_groups[b].identity@, prev_groups[b].event@));
                            assert(first_key_index(prev, prev_groups[a].identity@, prev_groups[a].event@)
                                < first_key_index(prev, prev_groups[b].identity@, prev_groups[b].event@));
                            lemma_first_key_index_push(prev, m, groups@[b].identity@, groups@[b].event@);
                        } else {
                            assert(groups@[a].identity@ == prev_groups[a].identity@
                                && groups@[a].event@ == prev_groups[a].event@);
                            assert(groups@[b].identity@ == m.identity && groups@[b].event@ == m.event);
                            lemma_first_key_index_bounds(prev, groups@[a].identity@, groups@[a].event@);
                            lemma_first_key_index_push(prev, m, groups@[b].identity@, groups@[b].event@);
                            assert(!has_key(prev, groups@[b].identity@, groups@[b].event@));
                            assert(first_key_index(prev.push(m), groups@[b].identity@, groups@[b].event@)
                                == prev.len());
                        }
                    }
                    assert(groups_of(rs.take(k + 1), groups@));
                }
            },
        }
        k += 1;
    }
    proof {
        assert(rs.take(records@.len() as int) =~= rs);
    }
    groups
}

} // verus!
