//! The merge semantics of the runtime cache and of the durable store.
//!
//! Both the cache and the store are modelled as a map from message id to
//! record. Reconciling a sequence of freshly scanned records into such a map
//! is `merged`: each record in turn is inserted under its id, overwriting
//! any entry already there. `newly_added` names the records whose id was not
//! present before — the ones a merge reports as new.

use vstd::pervasive::VecAdditionalExecFns;
use vstd::prelude::*;

use crate::record::BestOfMessage;

verus! {

/// No two records of the sequence share an id.
pub open spec fn unique_ids(s: Seq<BestOfMessage>) -> bool {
    forall|i: int, j: int|
        0 <= i < j < s.len() ==> (#[trigger] s[i].id) != (#[trigger] s[j].id)
}

/// Records with equal ids are equal outright. Holds in particular of any
/// sequence with unique ids, and of the rows read back from a store.
pub open spec fn consistent_ids(s: Seq<BestOfMessage>) -> bool {
    forall|i: int, j: int|
        0 <= i < s.len() && 0 <= j < s.len() && (#[trigger] s[i]).id == (#[trigger] s[j]).id
            ==> s[i] == s[j]
}

/// The map after upserting every record of `s`, in order, into `m`.
pub open spec fn merged(
    m: Map<i64, BestOfMessage>,
    s: Seq<BestOfMessage>,
) -> Map<i64, BestOfMessage>
    decreases s.len(),
{
    if s.len() == 0 {
        m
    } else {
        merged(m.insert(s[0].id, s[0]), s.skip(1))
    }
}

/// The records of `s`, in order, whose id is seen for the first time while
/// upserting `s` into `m`: not already in `m`, and not earlier in `s`.
pub open spec fn newly_added(
    m: Map<i64, BestOfMessage>,
    s: Seq<BestOfMessage>,
) -> Seq<BestOfMessage>
    decreases s.len(),
{
    if s.len() == 0 {
        Seq::empty()
    } else if m.dom().contains(s[0].id) {
        newly_added(m.insert(s[0].id, s[0]), s.skip(1))
    } else {
        seq![s[0]] + newly_added(m.insert(s[0].id, s[0]), s.skip(1))
    }
}

/// The map holding exactly the records of `s`, keyed by id; on a duplicate
/// id the later record wins.
pub open spec fn to_map(s: Seq<BestOfMessage>) -> Map<i64, BestOfMessage> {
    merged(Map::empty(), s)
}

/// Upserting one more record at the end overwrites exactly its key.
pub proof fn lemma_merged_push(m: Map<i64, BestOfMessage>, s: Seq<BestOfMessage>, v: BestOfMessage)
    ensures
        merged(m, s.push(v)) == merged(m, s).insert(v.id, v),
    decreases s.len(),
{
    if s.len() == 0 {
        assert(s.push(v)[0] == v);
        assert(s.push(v).skip(1) =~= Seq::<BestOfMessage>::empty());
        assert(merged(m.insert(v.id, v), Seq::<BestOfMessage>::empty()) == m.insert(v.id, v));
        assert(merged(m, s) == m);
    } else {
        assert(s.push(v)[0] == s[0]);
        assert(s.push(v).skip(1) =~= s.skip(1).push(v));
        lemma_merged_push(m.insert(s[0].id, s[0]), s.skip(1), v);
    }
}

/// One more record at the end is new exactly when its id is absent from the
/// merge of everything before it.
pub proof fn lemma_newly_push(m: Map<i64, BestOfMessage>, s: Seq<BestOfMessage>, v: BestOfMessage)
    ensures
        newly_added(m, s.push(v)) == newly_added(m, s) + (if merged(m, s).dom().contains(v.id) {
            Seq::<BestOfMessage>::empty()
        } else {
            seq![v]
        }),
    decreases s.len(),
{
    if s.len() == 0 {
        assert(s.push(v)[0] == v);
        assert(s.push(v).skip(1) =~= Seq::<BestOfMessage>::empty());
        assert(newly_added(m.insert(v.id, v), Seq::<BestOfMessage>::empty())
            == Seq::<BestOfMessage>::empty());
        assert(newly_added(m, s) == Seq::<BestOfMessage>::empty());
        assert(merged(m, s) == m);
        if m.dom().contains(v.id) {
            assert(newly_added(m, s.push(v)) =~= newly_added(m, s) + Seq::<BestOfMessage>::empty());
        } else {
            assert(newly_added(m, s.push(v)) =~= newly_added(m, s) + seq![v]);
        }
    } else {
        assert(s.push(v)[0] == s[0]);
        assert(s.push(v).skip(1) =~= s.skip(1).push(v));
        let m1 = m.insert(s[0].id, s[0]);
        lemma_newly_push(m1, s.skip(1), v);
        let tail = if merged(m, s).dom().contains(v.id) {
            Seq::<BestOfMessage>::empty()
        } else {
            seq![v]
        };
        if m.dom().contains(s[0].id) {
            assert(newly_added(m, s.push(v)) =~= newly_added(m, s) + tail);
        } else {
            assert(newly_added(m, s.push(v)) =~= (seq![s[0]] + newly_added(m1, s.skip(1))) + tail);
            assert((seq![s[0]] + newly_added(m1, s.skip(1))) + tail =~= newly_added(m, s) + tail);
        }
    }
}

/// A key is in the merged map exactly when it was there before or some
/// record of the sequence carries it.
pub proof fn lemma_merged_dom(m: Map<i64, BestOfMessage>, s: Seq<BestOfMessage>)
    ensures
        forall|k: i64|
            #[trigger] merged(m, s).dom().contains(k) <==> (m.dom().contains(k) || exists|i: int|
                0 <= i < s.len() && s[i].id == k),
    decreases s.len(),
{
    if s.len() == 0 {
    } else {
        let m1 = m.insert(s[0].id, s[0]);
        lemma_merged_dom(m1, s.skip(1));
        assert forall|k: i64|
            #[trigger] merged(m, s).dom().contains(k) <==> (m.dom().contains(k) || exists|i: int|
                0 <= i < s.len() && s[i].id == k) by {
            assert(merged(m, s) == merged(m1, s.skip(1)));
            if merged(m, s).dom().contains(k) {
                if m1.dom().contains(k) {
                    if k == s[0].id {
                        assert(s[0].id == k);
                        assert(exists|i: int| 0 <= i < s.len() && s[i].id == k);
                    }
                } else {
                    let i = choose|i: int| 0 <= i < s.skip(1).len() && s.skip(1)[i].id == k;
                    assert(s[i + 1].id == k);
                }
            }
            if m.dom().contains(k) {
                assert(m1.dom().contains(k));
                assert(merged(m1, s.skip(1)).dom().contains(k));
            }
            if exists|i: int| 0 <= i < s.len() && s[i].id == k {
                let i = choose|i: int| 0 <= i < s.len() && s[i].id == k;
                if i == 0 {
                    assert(m1.dom().contains(k));
                } else {
                    assert(s.skip(1)[i - 1].id == k);
                    assert(exists|j: int| 0 <= j < s.skip(1).len() && s.skip(1)[j].id == k);
                }
            }
        }
    }
}

/// After merging a sequence whose equal-id records agree, every record of
/// the sequence stands in the map under its id.
pub proof fn lemma_merged_pairs(m: Map<i64, BestOfMessage>, s: Seq<BestOfMessage>)
    requires
        consistent_ids(s),
    ensures
        forall|i: int|
            0 <= i < s.len() ==> merged(m, s).contains_pair((#[trigger] s[i]).id, s[i]),
    decreases s.len(),
{
    if s.len() == 0 {
    } else {
        let t = s.drop_last();
        let x = s.last();
        assert(s =~= t.push(x));
        lemma_merged_push(m, t, x);
        assert(consistent_ids(t)) by {
            assert forall|i: int, j: int|
                0 <= i < t.len() && 0 <= j < t.len() && (#[trigger] t[i]).id == (#[trigger] t[j]).id
                    implies t[i] == t[j] by {
                assert(t[i] == s[i] && t[j] == s[j]);
            }
        }
        lemma_merged_pairs(m, t);
        assert forall|i: int|
            0 <= i < s.len() implies merged(m, s).contains_pair((#[trigger] s[i]).id, s[i]) by {
            if i < t.len() {
                assert(merged(m, t).contains_pair(t[i].id, t[i]));
                if t[i].id == x.id {
                    assert(s[i].id == s[s.len() - 1].id);
                    assert(s[i] == x);
                }
            }
        }
    }
}

/// Overwriting the one record that carries an id is, at the map level, an
/// insert under that id.
pub proof fn lemma_merged_update(
    m: Map<i64, BestOfMessage>,
    s: Seq<BestOfMessage>,
    j: int,
    v: BestOfMessage,
)
    requires
        unique_ids(s),
        0 <= j < s.len(),
        v.id == s[j].id,
    ensures
        merged(m, s.update(j, v)) == merged(m, s).insert(v.id, v),
    decreases s.len(),
{
    let t = s.drop_last();
    let x = s.last();
    assert(s =~= t.push(x));
    if j == s.len() - 1 {
        assert(s.update(j, v) =~= t.push(v));
        lemma_merged_push(m, t, v);
        lemma_merged_push(m, t, x);
        assert(x.id == v.id);
        assert(merged(m, t).insert(x.id, x).insert(v.id, v) =~= merged(m, t).insert(v.id, v));
    } else {
        assert(s.update(j, v) =~= t.update(j, v).push(x));
        lemma_merged_push(m, t.update(j, v), x);
        lemma_merged_push(m, t, x);
        assert(unique_ids(t)) by {
            assert forall|a: int, b: int|
                0 <= a < b < t.len() implies (#[trigger] t[a].id) != (#[trigger] t[b].id) by {
                assert(t[a] == s[a] && t[b] == s[b]);
            }
        }
        assert(t[j] == s[j]);
        lemma_merged_update(m, t, j, v);
        assert(x.id != v.id) by {
            assert(s[j].id != s[s.len() - 1].id);
        }
        assert(merged(m, t).insert(v.id, v).insert(x.id, x) =~= merged(m, t).insert(x.id, x).insert(
            v.id,
            v,
        ));
    }
}

/// Unique ids are in particular consistent.
pub proof fn lemma_unique_implies_consistent(s: Seq<BestOfMessage>)
    requires
        unique_ids(s),
    ensures
        consistent_ids(s),
{
    assert forall|i: int, j: int|
        0 <= i < s.len() && 0 <= j < s.len() && (#[trigger] s[i]).id == (#[trigger] s[j]).id
            implies s[i] == s[j] by {
        if i < j {
            assert(s[i].id != s[j].id);
        } else if j < i {
            assert(s[j].id != s[i].id);
        }
    }
}

/// Upserting records that already stand in the map, each under its id with
/// the very same value, changes nothing.
pub proof fn lemma_merged_noop(m: Map<i64, BestOfMessage>, s: Seq<BestOfMessage>)
    requires
        forall|i: int| 0 <= i < s.len() ==> m.contains_pair((#[trigger] s[i]).id, s[i]),
    ensures
        merged(m, s) == m,
    decreases s.len(),
{
    if s.len() == 0 {
    } else {
        assert(m.insert(s[0].id, s[0]) =~= m);
        assert forall|i: int|
            0 <= i < s.skip(1).len() implies m.contains_pair(
            (#[trigger] s.skip(1)[i]).id,
            s.skip(1)[i],
        ) by {
            assert(s.skip(1)[i] == s[i + 1]);
        }
        lemma_merged_noop(m, s.skip(1));
        assert(merged(m, s) == merged(m.insert(s[0].id, s[0]), s.skip(1)));
    }
}

/// A merge whose every id is already present reports nothing as new.
pub proof fn lemma_newly_none(m: Map<i64, BestOfMessage>, s: Seq<BestOfMessage>)
    requires
        forall|i: int| 0 <= i < s.len() ==> m.dom().contains((#[trigger] s[i]).id),
    ensures
        newly_added(m, s) == Seq::<BestOfMessage>::empty(),
    decreases s.len(),
{
    if s.len() == 0 {
    } else {
        let m1 = m.insert(s[0].id, s[0]);
        assert forall|i: int|
            0 <= i < s.skip(1).len() implies m1.dom().contains(
            (#[trigger] s.skip(1)[i]).id,
        ) by {
            assert(s.skip(1)[i] == s[i + 1]);
        }
        lemma_newly_none(m1, s.skip(1));
    }
}

/// Merging a concatenation is merging the two parts one after the other.
pub proof fn lemma_merged_concat(
    m: Map<i64, BestOfMessage>,
    a: Seq<BestOfMessage>,
    b: Seq<BestOfMessage>,
)
    ensures
        merged(m, a + b) == merged(merged(m, a), b),
    decreases a.len(),
{
    if a.len() == 0 {
        assert(a + b =~= b);
    } else {
        assert((a + b)[0] == a[0]);
        assert((a + b).skip(1) =~= a.skip(1) + b);
        lemma_merged_concat(m.insert(a[0].id, a[0]), a.skip(1), b);
    }
}

/// The new records of a concatenation are the new ones of the first part
/// followed by those of the second part merged after it.
pub proof fn lemma_newly_concat(
    m: Map<i64, BestOfMessage>,
    a: Seq<BestOfMessage>,
    b: Seq<BestOfMessage>,
)
    ensures
        newly_added(m, a + b) == newly_added(m, a) + newly_added(merged(m, a), b),
    decreases a.len(),
{
    if a.len() == 0 {
        assert(a + b =~= b);
        assert(newly_added(m, a) + newly_added(merged(m, a), b) =~= newly_added(m, b));
    } else {
        assert((a + b)[0] == a[0]);
        assert((a + b).skip(1) =~= a.skip(1) + b);
        let m1 = m.insert(a[0].id, a[0]);
        lemma_newly_concat(m1, a.skip(1), b);
        assert(merged(m1, a.skip(1)) == merged(m, a));
        if m.dom().contains(a[0].id) {
        } else {
            assert((seq![a[0]] + (newly_added(m1, a.skip(1)) + newly_added(merged(m, a), b))) =~= (
            seq![a[0]] + newly_added(m1, a.skip(1))) + newly_added(merged(m, a), b));
        }
    }
}

/// Merging is upserting: the result is the old map overridden by the map of
/// the merged records.
pub proof fn lemma_merged_is_union(m: Map<i64, BestOfMessage>, s: Seq<BestOfMessage>)
    ensures
        merged(m, s) == m.union_prefer_right(to_map(s)),
    decreases s.len(),
{
    if s.len() == 0 {
        assert(m.union_prefer_right(to_map(s)) =~= m);
    } else {
        let t = s.drop_last();
        let x = s.last();
        assert(s =~= t.push(x));
        lemma_merged_push(m, t, x);
        lemma_merged_push(Map::empty(), t, x);
        lemma_merged_is_union(m, t);
        assert(m.union_prefer_right(to_map(t)).insert(x.id, x) =~= m.union_prefer_right(
            to_map(t).insert(x.id, x),
        ));
    }
}

/// The map of a sequence with unique ids holds exactly one entry per record.
pub proof fn lemma_to_map_len(s: Seq<BestOfMessage>)
    requires
        unique_ids(s),
    ensures
        to_map(s).dom().finite(),
        to_map(s).dom().len() == s.len(),
    decreases s.len(),
{
    if s.len() == 0 {
        assert(to_map(s).dom() =~= Set::<i64>::empty());
    } else {
        let t = s.drop_last();
        let x = s.last();
        assert(s =~= t.push(x));
        lemma_merged_push(Map::empty(), t, x);
        lemma_to_map_len(t);
        lemma_merged_dom(Map::empty(), t);
        assert(!to_map(t).dom().contains(x.id)) by {
            if to_map(t).dom().contains(x.id) {
                let i = choose|i: int| 0 <= i < t.len() && t[i].id == x.id;
                assert(s[i].id == s[s.len() - 1].id);
            }
        }
        assert(to_map(s).dom() =~= to_map(t).dom().insert(x.id));
    }
}

/// Merging the same scan result a second time leaves the cache identical
/// and reports no record as newly added.
pub proof fn lemma_merge_idempotent(m: Map<i64, BestOfMessage>, s: Seq<BestOfMessage>)
    requires
        unique_ids(s),
    ensures
        merged(merged(m, s), s) == merged(m, s),
        newly_added(merged(m, s), s) == Seq::<BestOfMessage>::empty(),
{
    lemma_unique_implies_consistent(s);
    lemma_merged_pairs(m, s);
    lemma_merged_noop(merged(m, s), s);
    lemma_newly_none(merged(m, s), s);
}

/// Loading a store's rows into an empty cache reproduces the store's map,
/// and flushing those same rows straight back leaves the store unchanged.
pub proof fn lemma_load_then_flush_unchanged(
    store: Map<i64, BestOfMessage>,
    rows: Seq<BestOfMessage>,
)
    requires
        forall|i: int| 0 <= i < rows.len() ==> store.contains_pair((#[trigger] rows[i]).id, rows[i]),
        forall|k: i64|
            #[trigger] store.dom().contains(k) ==> exists|i: int|
                0 <= i < rows.len() && rows[i].id == k,
    ensures
        to_map(rows) == store,
        merged(store, rows) == store,
{
    assert(consistent_ids(rows)) by {
        assert forall|i: int, j: int|
            0 <= i < rows.len() && 0 <= j < rows.len() && (#[trigger] rows[i]).id
                == (#[trigger] rows[j]).id implies rows[i] == rows[j] by {
            assert(store.contains_pair(rows[i].id, rows[i]));
            assert(store.contains_pair(rows[j].id, rows[j]));
        }
    }
    lemma_merged_pairs(Map::empty(), rows);
    lemma_merged_dom(Map::empty(), rows);
    assert(to_map(rows) =~= store) by {
        assert forall|k: i64| #[trigger] to_map(rows).dom().contains(k) implies store.dom().contains(
            k,
        ) && to_map(rows)[k] == store[k] by {
            let i = choose|i: int| 0 <= i < rows.len() && rows[i].id == k;
            assert(store.contains_pair(rows[i].id, rows[i]));
            assert(to_map(rows).contains_pair(rows[i].id, rows[i]));
        }
        assert forall|k: i64| #[trigger] store.dom().contains(k) implies to_map(
            rows,
        ).dom().contains(k) by {
            let i = choose|i: int| 0 <= i < rows.len() && rows[i].id == k;
            assert(to_map(rows).contains_pair(rows[i].id, rows[i]));
        }
    }
    lemma_merged_noop(store, rows);
}

/// A flush that got through only a prefix of the rows is harmless: the next
/// full sweep brings the store to exactly where a single full sweep would
/// have.
pub proof fn lemma_partial_flush_recovery(
    store: Map<i64, BestOfMessage>,
    rows: Seq<BestOfMessage>,
    k: int,
)
    requires
        0 <= k <= rows.len(),
        unique_ids(rows),
    ensures
        merged(merged(store, rows.take(k)), rows) == merged(store, rows),
{
    let t = rows.take(k);
    let u = rows.skip(k);
    assert(rows =~= t + u);
    let m1 = merged(store, t);
    lemma_merged_concat(store, t, u);
    lemma_merged_concat(m1, t, u);
    assert(unique_ids(t)) by {
        assert forall|i: int, j: int|
            0 <= i < j < t.len() implies (#[trigger] t[i].id) != (#[trigger] t[j].id) by {
            assert(t[i] == rows[i] && t[j] == rows[j]);
        }
    }
    lemma_unique_implies_consistent(t);
    lemma_merged_pairs(store, t);
    lemma_merged_noop(m1, t);
}

/// Position of the record carrying `id`, if any.
pub(crate) fn find_index(records: &Vec<BestOfMessage>, id: i64) -> (r: Option<usize>)
    ensures
        match r {
            Some(j) => j < records@.len() && records@[j as int].id == id,
            None => forall|t: int| 0 <= t < records@.len() ==> (#[trigger] records@[t]).id != id,
        },
{
    let mut i: usize = 0;
    while i < records.len()
        invariant
            i <= records.len(),
            forall|t: int| 0 <= t < i ==> (#[trigger] records@[t]).id != id,
        decreases records.len() - i,
    {
        if records[i].id == id {
            return Some(i);
        }
        i = i + 1;
    }
    None
}

/// Upserts one record into an id-unique vector of records: overwrites the
/// entry with its id if there is one, appends it otherwise. Returns whether
/// the record was new.
pub(crate) fn upsert_record(records: &mut Vec<BestOfMessage>, v: BestOfMessage) -> (was_new: bool)
    requires
        unique_ids(old(records)@),
    ensures
        unique_ids(final(records)@),
        to_map(final(records)@) == to_map(old(records)@).insert(v.id, v),
        was_new == !to_map(old(records)@).dom().contains(v.id),
{
    proof {
        lemma_merged_dom(Map::empty(), records@);
    }
    match find_index(records, v.id) {
        Some(j) => {
            proof {
                assert(to_map(records@).dom().contains(v.id)) by {
                    assert(records@[j as int].id == v.id);
                }
                lemma_merged_update(Map::empty(), records@, j as int, v);
                assert(unique_ids(records@.update(j as int, v))) by {
                    let u = records@.update(j as int, v);
                    assert forall|a: int, b: int|
                        0 <= a < b < u.len() implies (#[trigger] u[a].id) != (#[trigger] u[b].id) by {
                        assert(u[a].id == records@[a].id && u[b].id == records@[b].id);
                    }
                }
            }
            records.set(j, v);
            false
        },
        None => {
            proof {
                assert(!to_map(records@).dom().contains(v.id));
                lemma_merged_push(Map::empty(), records@, v);
                assert(unique_ids(records@.push(v))) by {
                    let u = records@.push(v);
                    assert forall|a: int, b: int|
                        0 <= a < b < u.len() implies (#[trigger] u[a].id) != (#[trigger] u[b].id) by {
                        if b < u.len() - 1 {
                            assert(u[a] == records@[a] && u[b] == records@[b]);
                        } else {
                            assert(u[a] == records@[a] && u[b] == v);
                        }
                    }
                }
            }
            records.push(v);
            true
        },
    }
}

} // verus!
