//! The query surface: bounded top-N retrieval with optional filters on
//! author, channel and a relative time window, sorted by total reaction
//! count, descending.

use vstd::prelude::*;

use crate::cache::BestOf;
use crate::merge::unique_ids;
use crate::record::BestOfMessage;

verus! {

/// A relative time window for the top-N query, evaluated against each
/// record's creation instant.
#[derive(Clone, Copy, Debug, PartialEq, Eq)]
pub enum TimeRange {
    Today,
    ThisWeek,
    ThisMonth,
    ThisYear,
}

/// The width of a relative window, in seconds: a day, a week, thirty days,
/// or three hundred and sixty-five days.
pub open spec fn spec_range_secs(range: TimeRange) -> int {
    match range {
        TimeRange::Today => 86400,
        TimeRange::ThisWeek => 604800,
        TimeRange::ThisMonth => 2592000,
        TimeRange::ThisYear => 31536000,
    }
}

/// The instant a relative window starts at, counting back from `now`.
pub fn cutoff_for(range: &TimeRange, now: i64) -> (c: i64)
    requires
        now >= 0,
    ensures
        c == now - spec_range_secs(*range),
{
    let span: i64 = match range {
        TimeRange::Today => 86400,
        TimeRange::ThisWeek => 604800,
        TimeRange::ThisMonth => 2592000,
        TimeRange::ThisYear => 31536000,
    };
    now - span
}

/// The instant a relative window starts at, counting back from the current
/// moment.
pub fn current_cutoff(range: &TimeRange) -> (c: i64)
    ensures
        exists|now: i64| now >= 0 && c == #[trigger] spec_cutoff(*range, now),
{
    let now = crate::clock::now_unix();
    let c = cutoff_for(range, now);
    proof {
        assert(now >= 0 && c == spec_cutoff(*range, now));
    }
    c
}

/// The instant a relative window of the given width starts at, counting
/// back from `now`.
pub open spec fn spec_cutoff(range: TimeRange, now: i64) -> int {
    now - spec_range_secs(range)
}

/// The optional filters of a top-N query: an author display name, a channel
/// display name, and a lower bound on the creation instant.
pub struct TopFilter {
    pub author: Option<String>,
    pub channel: Option<String>,
    pub since: Option<i64>,
}

/// Whether a record satisfies every filter that is set.
pub open spec fn spec_matches(r: BestOfMessage, f: TopFilter) -> bool {
    &&& (f.author is Some ==> r.author@ == f.author.unwrap()@)
    &&& (f.channel is Some ==> r.channel@ == f.channel.unwrap()@)
    &&& (f.since is Some ==> r.timestamp >= f.since.unwrap())
}

/// The filter as a predicate over records.
pub open spec fn match_filter(f: TopFilter) -> spec_fn(BestOfMessage) -> bool {
    |r: BestOfMessage| spec_matches(r, f)
}

/// Whether a record satisfies every filter that is set.
pub fn matches_filter(message: &BestOfMessage, filter: &TopFilter) -> (r: bool)
    ensures
        r == spec_matches(*message, *filter),
{
    match &filter.author {
        Some(author) => {
            if !(message.author == *author) {
                return false;
            }
        },
        None => {},
    }
    match &filter.channel {
        Some(channel) => {
            if !(message.channel == *channel) {
                return false;
            }
        },
        None => {},
    }
    match &filter.since {
        Some(since) => message.timestamp >= *since,
        None => true,
    }
}

/// Counts never increase along the sequence.
pub open spec fn sorted_desc(s: Seq<BestOfMessage>) -> bool {
    forall|i: int, j: int|
        0 <= i <= j < s.len() ==> (#[trigger] s[i]).count >= (#[trigger] s[j]).count
}

/// Some record of the sequence carries the id.
pub open spec fn id_in(s: Seq<BestOfMessage>, k: i64) -> bool {
    exists|i: int| 0 <= i < s.len() && s[i].id == k
}

/// The sequence with `v` placed before the first record of strictly
/// smaller count — after any record of equal count, keeping order stable.
pub open spec fn sorted_insert(s: Seq<BestOfMessage>, v: BestOfMessage) -> Seq<BestOfMessage>
    decreases s.len(),
{
    if s.len() == 0 {
        seq![v]
    } else if v.count > s[0].count {
        seq![v] + s
    } else {
        seq![s[0]] + sorted_insert(s.skip(1), v)
    }
}

/// The sequence sorted by count, descending, by inserting each record in
/// turn into the sorted front.
pub open spec fn sort_desc(s: Seq<BestOfMessage>) -> Seq<BestOfMessage>
    decreases s.len(),
{
    if s.len() == 0 {
        Seq::empty()
    } else {
        sorted_insert(sort_desc(s.drop_last()), s.last())
    }
}

/// Inserting adds exactly one record and exactly the new one to the
/// contents.
proof fn lemma_sorted_insert_elems(s: Seq<BestOfMessage>, v: BestOfMessage)
    ensures
        sorted_insert(s, v).len() == s.len() + 1,
        forall|x: BestOfMessage|
            #[trigger] sorted_insert(s, v).contains(x) <==> (s.contains(x) || x == v),
    decreases s.len(),
{
    let out = sorted_insert(s, v);
    if s.len() == 0 {
        assert(out =~= seq![v]);
        assert(out[0] == v);
        assert forall|x: BestOfMessage| #[trigger] out.contains(x) implies (s.contains(x) || x
            == v) by {
            let i = choose|i: int| 0 <= i < out.len() && out[i] == x;
            assert(x == v);
        }
        assert(out.contains(v));
    } else if v.count > s[0].count {
        assert(out =~= seq![v] + s);
        assert forall|x: BestOfMessage| #[trigger] out.contains(x) implies (s.contains(x) || x
            == v) by {
            let i = choose|i: int| 0 <= i < out.len() && out[i] == x;
            if i > 0 {
                assert(s[i - 1] == x);
            }
        }
        assert forall|x: BestOfMessage| s.contains(x) || x == v implies #[trigger] out.contains(
            x,
        ) by {
            if s.contains(x) {
                let i = choose|i: int| 0 <= i < s.len() && s[i] == x;
                assert(out[i + 1] == x);
            } else {
                assert(out[0] == x);
            }
        }
    } else {
        let rest = sorted_insert(s.skip(1), v);
        lemma_sorted_insert_elems(s.skip(1), v);
        assert(out =~= seq![s[0]] + rest);
        assert forall|x: BestOfMessage| #[trigger] out.contains(x) implies (s.contains(x) || x
            == v) by {
            let i = choose|i: int| 0 <= i < out.len() && out[i] == x;
            if i == 0 {
                assert(s[0] == x);
            } else {
                assert(rest[i - 1] == x);
                assert(rest.contains(x));
                if s.skip(1).contains(x) {
                    let t = choose|t: int| 0 <= t < s.skip(1).len() && s.skip(1)[t] == x;
                    assert(s[t + 1] == x);
                }
            }
        }
        assert forall|x: BestOfMessage| s.contains(x) || x == v implies #[trigger] out.contains(
            x,
        ) by {
            if s.contains(x) {
                let i = choose|i: int| 0 <= i < s.len() && s[i] == x;
                if i == 0 {
                    assert(out[0] == x);
                } else {
                    assert(s.skip(1)[i - 1] == x);
                    assert(s.skip(1).contains(x));
                    assert(rest.contains(x));
                    let u = choose|u: int| 0 <= u < rest.len() && rest[u] == x;
                    assert(out[u + 1] == x);
                }
            } else {
                assert(rest.contains(v));
                let u = choose|u: int| 0 <= u < rest.len() && rest[u] == x;
                assert(out[u + 1] == x);
            }
        }
    }
}

/// Inserting into a sorted sequence keeps it sorted.
proof fn lemma_sorted_insert_sorted(s: Seq<BestOfMessage>, v: BestOfMessage)
    requires
        sorted_desc(s),
    ensures
        sorted_desc(sorted_insert(s, v)),
    decreases s.len(),
{
    let out = sorted_insert(s, v);
    if s.len() == 0 {
        assert(out =~= seq![v]);
    } else if v.count > s[0].count {
        assert(out =~= seq![v] + s);
        assert forall|i: int, j: int|
            0 <= i <= j < out.len() implies (#[trigger] out[i]).count >= (
        #[trigger] out[j]).count by {
            if i == 0 && j > 0 {
                assert(out[j] == s[j - 1]);
                assert(s[0].count >= s[j - 1].count);
            } else if i > 0 {
                assert(out[i] == s[i - 1] && out[j] == s[j - 1]);
            }
        }
    } else {
        let rest = sorted_insert(s.skip(1), v);
        assert(sorted_desc(s.skip(1))) by {
            assert forall|i: int, j: int|
                0 <= i <= j < s.skip(1).len() implies (#[trigger] s.skip(1)[i]).count >= (
            #[trigger] s.skip(1)[j]).count by {
                assert(s.skip(1)[i] == s[i + 1] && s.skip(1)[j] == s[j + 1]);
            }
        }
        lemma_sorted_insert_sorted(s.skip(1), v);
        lemma_sorted_insert_elems(s.skip(1), v);
        assert(out =~= seq![s[0]] + rest);
        assert forall|i: int, j: int|
            0 <= i <= j < out.len() implies (#[trigger] out[i]).count >= (
        #[trigger] out[j]).count by {
            if i == 0 && j > 0 {
                assert(out[j] == rest[j - 1]);
                assert(rest.contains(rest[j - 1]));
                if s.skip(1).contains(rest[j - 1]) {
                    let t = choose|t: int| 0 <= t < s.skip(1).len() && s.skip(1)[t] == rest[j - 1];
                    assert(s[t + 1] == rest[j - 1]);
                    assert(s[0].count >= s[t + 1].count);
                } else {
                    assert(rest[j - 1] == v);
                }
            } else if i > 0 {
                assert(out[i] == rest[i - 1] && out[j] == rest[j - 1]);
            }
        }
    }
}

/// Inserting a record whose id is fresh keeps ids unique.
proof fn lemma_sorted_insert_unique(s: Seq<BestOfMessage>, v: BestOfMessage)
    requires
        unique_ids(s),
        forall|t: int| 0 <= t < s.len() ==> (#[trigger] s[t]).id != v.id,
    ensures
        unique_ids(sorted_insert(s, v)),
    decreases s.len(),
{
    let out = sorted_insert(s, v);
    if s.len() == 0 {
        assert(out =~= seq![v]);
    } else if v.count > s[0].count {
        assert(out =~= seq![v] + s);
        assert forall|a: int, b: int|
            0 <= a < b < out.len() implies (#[trigger] out[a].id) != (#[trigger] out[b].id) by {
            if a == 0 {
                assert(out[b] == s[b - 1]);
            } else {
                assert(out[a] == s[a - 1] && out[b] == s[b - 1]);
            }
        }
    } else {
        let rest = sorted_insert(s.skip(1), v);
        assert(unique_ids(s.skip(1))) by {
            assert forall|a: int, b: int|
                0 <= a < b < s.skip(1).len() implies (#[trigger] s.skip(1)[a].id) != (
            #[trigger] s.skip(1)[b].id) by {
                assert(s.skip(1)[a] == s[a + 1] && s.skip(1)[b] == s[b + 1]);
            }
        }
        assert(forall|t: int| 0 <= t < s.skip(1).len() ==> (#[trigger] s.skip(1)[t]).id != v.id)
            by {
            assert forall|t: int|
                0 <= t < s.skip(1).len() implies (#[trigger] s.skip(1)[t]).id != v.id by {
                assert(s.skip(1)[t] == s[t + 1]);
            }
        }
        lemma_sorted_insert_unique(s.skip(1), v);
        lemma_sorted_insert_elems(s.skip(1), v);
        assert(out =~= seq![s[0]] + rest);
        assert forall|a: int, b: int|
            0 <= a < b < out.len() implies (#[trigger] out[a].id) != (#[trigger] out[b].id) by {
            if a == 0 {
                assert(out[b] == rest[b - 1]);
                assert(rest.contains(rest[b - 1]));
                if s.skip(1).contains(rest[b - 1]) {
                    let t = choose|t: int| 0 <= t < s.skip(1).len() && s.skip(1)[t] == rest[b - 1];
                    assert(s[t + 1] == rest[b - 1]);
                } else {
                    assert(rest[b - 1] == v);
                }
            } else {
                assert(out[a] == rest[a - 1] && out[b] == rest[b - 1]);
            }
        }
    }
}

/// Sorting keeps the length and the contents.
pub proof fn lemma_sort_desc_elems(s: Seq<BestOfMessage>)
    ensures
        sort_desc(s).len() == s.len(),
        forall|x: BestOfMessage| #[trigger] sort_desc(s).contains(x) <==> s.contains(x),
    decreases s.len(),
{
    if s.len() == 0 {
    } else {
        let t = s.drop_last();
        let x = s.last();
        lemma_sort_desc_elems(t);
        lemma_sorted_insert_elems(sort_desc(t), x);
        assert forall|y: BestOfMessage| #[trigger] sort_desc(s).contains(y) implies s.contains(
            y,
        ) by {
            if sort_desc(t).contains(y) {
                let i = choose|i: int| 0 <= i < t.len() && t[i] == y;
                assert(s[i] == y);
            } else {
                assert(s[s.len() - 1] == y);
            }
        }
        assert forall|y: BestOfMessage| s.contains(y) implies #[trigger] sort_desc(s).contains(
            y,
        ) by {
            let i = choose|i: int| 0 <= i < s.len() && s[i] == y;
            if i < s.len() - 1 {
                assert(t[i] == y);
                assert(t.contains(y));
            }
        }
    }
}

/// Sorting sorts.
pub proof fn lemma_sort_desc_sorted(s: Seq<BestOfMessage>)
    ensures
        sorted_desc(sort_desc(s)),
    decreases s.len(),
{
    if s.len() == 0 {
    } else {
        lemma_sort_desc_sorted(s.drop_last());
        lemma_sorted_insert_sorted(sort_desc(s.drop_last()), s.last());
    }
}

/// Sorting a sequence with unique ids yields one.
pub proof fn lemma_sort_desc_unique(s: Seq<BestOfMessage>)
    requires
        unique_ids(s),
    ensures
        unique_ids(sort_desc(s)),
    decreases s.len(),
{
    if s.len() == 0 {
    } else {
        let t = s.drop_last();
        let x = s.last();
        assert(unique_ids(t)) by {
            assert forall|a: int, b: int|
                0 <= a < b < t.len() implies (#[trigger] t[a].id) != (#[trigger] t[b].id) by {
                assert(t[a] == s[a] && t[b] == s[b]);
            }
        }
        lemma_sort_desc_unique(t);
        lemma_sort_desc_elems(t);
        assert forall|u: int| 0 <= u < sort_desc(t).len() implies (#[trigger] sort_desc(t)[u]).id
            != x.id by {
            assert(sort_desc(t).contains(sort_desc(t)[u]));
            let j = choose|j: int| 0 <= j < t.len() && t[j] == sort_desc(t)[u];
            assert(s[j].id != s[s.len() - 1].id);
        }
        lemma_sorted_insert_unique(sort_desc(t), x);
    }
}

/// Where the scan for the insertion point stopped is where the spec places
/// the record.
proof fn lemma_sorted_insert_at(s: Seq<BestOfMessage>, v: BestOfMessage, j: int)
    requires
        0 <= j <= s.len(),
        forall|t: int| 0 <= t < j ==> (#[trigger] s[t]).count >= v.count,
        j < s.len() ==> v.count > s[j].count,
    ensures
        sorted_insert(s, v) == s.take(j) + seq![v] + s.skip(j),
    decreases s.len(),
{
    if j == 0 {
        if s.len() == 0 {
            assert(sorted_insert(s, v) =~= s.take(0) + seq![v] + s.skip(0));
        } else {
            assert(v.count > s[0].count);
            assert(sorted_insert(s, v) =~= s.take(0) + seq![v] + s.skip(0));
        }
    } else {
        assert(s[0].count >= v.count);
        assert(!(v.count > s[0].count));
        assert(forall|t: int|
            0 <= t < j - 1 ==> (#[trigger] s.skip(1)[t]).count >= v.count) by {
            assert forall|t: int|
                0 <= t < j - 1 implies (#[trigger] s.skip(1)[t]).count >= v.count by {
                assert(s.skip(1)[t] == s[t + 1]);
            }
        }
        assert(j - 1 < s.skip(1).len() ==> v.count > s.skip(1)[j - 1].count);
        lemma_sorted_insert_at(s.skip(1), v, j - 1);
        assert(sorted_insert(s, v) =~= s.take(j) + seq![v] + s.skip(j)) by {
            assert(sorted_insert(s, v) == seq![s[0]] + sorted_insert(s.skip(1), v));
            assert(sorted_insert(s.skip(1), v) == s.skip(1).take(j - 1) + seq![v] + s.skip(1).skip(
                j - 1,
            ));
            assert(s.skip(1).take(j - 1) =~= s.take(j).skip(1));
            assert(s.skip(1).skip(j - 1) =~= s.skip(j));
        }
    }
}

/// Everything the filter keeps was there.
pub proof fn lemma_filter_subset(s: Seq<BestOfMessage>, pred: spec_fn(BestOfMessage) -> bool)
    ensures
        forall|x: BestOfMessage| #[trigger] s.filter(pred).contains(x) ==> s.contains(x),
    decreases s.len(),
{
    reveal(Seq::filter);
    if s.len() == 0 {
    } else {
        let t = s.drop_last();
        lemma_filter_subset(t, pred);
        assert forall|x: BestOfMessage| #[trigger] s.filter(pred).contains(x) implies s.contains(
            x,
        ) by {
            if t.filter(pred).contains(x) {
                let i = choose|i: int| 0 <= i < t.len() && t[i] == x;
                assert(s[i] == x);
            } else {
                assert(x == s.last());
                assert(s[s.len() - 1] == x);
            }
        }
    }
}

/// Filtering a sequence with unique ids keeps them unique.
pub proof fn lemma_filter_unique(s: Seq<BestOfMessage>, pred: spec_fn(BestOfMessage) -> bool)
    requires
        unique_ids(s),
    ensures
        unique_ids(s.filter(pred)),
    decreases s.len(),
{
    reveal(Seq::filter);
    if s.len() == 0 {
    } else {
        let t = s.drop_last();
        let x = s.last();
        assert(unique_ids(t)) by {
            assert forall|a: int, b: int|
                0 <= a < b < t.len() implies (#[trigger] t[a].id) != (#[trigger] t[b].id) by {
                assert(t[a] == s[a] && t[b] == s[b]);
            }
        }
        lemma_filter_unique(t, pred);
        lemma_filter_subset(t, pred);
        if pred(x) {
            let out = s.filter(pred);
            assert(out == t.filter(pred).push(x));
            assert forall|a: int, b: int|
                0 <= a < b < out.len() implies (#[trigger] out[a].id) != (#[trigger] out[b].id) by {
                if b < out.len() - 1 {
                    assert(out[a] == t.filter(pred)[a] && out[b] == t.filter(pred)[b]);
                } else {
                    assert(out[b] == x);
                    assert(out[a] == t.filter(pred)[a]);
                    assert(t.filter(pred).contains(t.filter(pred)[a]));
                    let u = choose|u: int| 0 <= u < t.len() && t[u] == t.filter(pred)[a];
                    assert(s[u].id != s[s.len() - 1].id);
                }
            }
        }
    }
}

/// Inserts a record into a count-sorted vector, before the first record of
/// strictly smaller count.
fn sorted_insert_exec(sorted: &mut Vec<BestOfMessage>, v: BestOfMessage)
    ensures
        final(sorted)@ == sorted_insert(old(sorted)@, v),
{
    let mut j: usize = 0;
    while j < sorted.len() && sorted[j].count >= v.count
        invariant
            j <= sorted.len(),
            forall|t: int| 0 <= t < j ==> (#[trigger] sorted@[t]).count >= v.count,
        decreases sorted.len() - j,
    {
        j = j + 1;
    }
    proof {
        lemma_sorted_insert_at(sorted@, v, j as int);
    }
    sorted.insert(j, v);
    proof {
        assert(final(sorted)@ =~= old(sorted)@.take(j as int) + seq![v] + old(sorted)@.skip(
            j as int,
        ));
    }
}

/// Sorts records by count, descending; records of equal count keep their
/// order.
fn sort_by_count(list: Vec<BestOfMessage>) -> (r: Vec<BestOfMessage>)
    ensures
        r@ == sort_desc(list@),
{
    let ghost orig = list@;
    let mut remaining = list;
    let mut sorted: Vec<BestOfMessage> = Vec::new();
    let ghost mut i: int = 0;
    while remaining.len() > 0
        invariant
            0 <= i <= orig.len(),
            remaining@ =~= orig.skip(i),
            sorted@ == sort_desc(orig.take(i)),
        decreases remaining.len(),
    {
        let v = remaining.remove(0);
        proof {
            assert(v == orig[i]);
            assert(remaining@ =~= orig.skip(i + 1));
            assert(orig.take(i + 1).drop_last() =~= orig.take(i));
            assert(orig.take(i + 1).last() == orig[i]);
        }
        sorted_insert_exec(&mut sorted, v);
        proof {
            i = i + 1;
        }
    }
    proof {
        assert(orig.take(i) =~= orig);
    }
    sorted
}

/// Keeps the records that satisfy every set filter, in order.
fn filter_records(rows: Vec<BestOfMessage>, filter: &TopFilter) -> (r: Vec<BestOfMessage>)
    ensures
        r@ == rows@.filter(match_filter(*filter)),
{
    let ghost orig = rows@;
    let mut remaining = rows;
    let mut kept: Vec<BestOfMessage> = Vec::new();
    let ghost mut i: int = 0;
    while remaining.len() > 0
        invariant
            0 <= i <= orig.len(),
            remaining@ =~= orig.skip(i),
            kept@ == orig.take(i).filter(match_filter(*filter)),
        decreases remaining.len(),
    {
        let message = remaining.remove(0);
        proof {
            assert(message == orig[i]);
            assert(remaining@ =~= orig.skip(i + 1));
            assert(orig.take(i + 1) =~= orig.take(i).push(orig[i]));
            orig.take(i).lemma_filter_push(orig[i], match_filter(*filter));
        }
        if matches_filter(&message, filter) {
            kept.push(message);
        }
        proof {
            i = i + 1;
        }
    }
    proof {
        assert(orig.take(i) =~= orig);
    }
    kept
}

impl BestOf {
    /// The most-reacted records of the cache under the given filters: every
    /// returned record stands in the cache and satisfies every set filter,
    /// the list is sorted by count descending and holds at most `limit`
    /// records, and a matching record is left out only when the list is
    /// full of records that react at least as strongly. An empty result is
    /// a valid outcome, not an error.
    pub fn get_top_reacted_messages(&self, filter: &TopFilter, limit: usize) -> (r: Vec<
        BestOfMessage,
    >)
        ensures
            r@.len() <= limit,
            sorted_desc(r@),
            unique_ids(r@),
            forall|i: int|
                0 <= i < r@.len() ==> self@.contains_pair((#[trigger] r@[i]).id, r@[i])
                    && spec_matches(r@[i], *filter),
            forall|k: i64|
                #[trigger] self@.dom().contains(k) && spec_matches(self@[k], *filter) && !id_in(
                    r@,
                    k,
                ) ==> r@.len() == limit && (forall|i: int|
                    0 <= i < r@.len() ==> (#[trigger] r@[i]).count >= self@[k].count),
    {
        let rows = self.all_records();
        let pred = Ghost(match_filter(*filter));
        let matching = filter_records(rows, filter);
        let ghost rows_seq = matching@;
        proof {
            rows@.filter_lemma(pred@);
            lemma_filter_subset(rows@, pred@);
            lemma_filter_unique(rows@, pred@);
            lemma_sort_desc_elems(matching@);
            lemma_sort_desc_sorted(matching@);
            lemma_sort_desc_unique(matching@);
        }
        let mut result = sort_by_count(matching);
        let ghost sorted_seq = result@;
        result.truncate(limit);
        proof {
            if limit < sorted_seq.len() {
                assert(result@ =~= sorted_seq.take(limit as int));
            }
            assert forall|i: int|
                0 <= i < result@.len() implies self@.contains_pair(
                (#[trigger] result@[i]).id,
                result@[i],
            ) && spec_matches(result@[i], *filter) by {
                assert(result@[i] == sorted_seq[i]);
                assert(sorted_seq.contains(sorted_seq[i]));
                assert(rows_seq.contains(sorted_seq[i]));
                let u = choose|u: int| 0 <= u < rows_seq.len() && rows_seq[u] == sorted_seq[i];
                assert(pred@(rows_seq[u]));
                assert(rows@.contains(sorted_seq[i]));
                let w = choose|w: int| 0 <= w < rows@.len() && rows@[w] == sorted_seq[i];
                assert(self@.contains_pair(rows@[w].id, rows@[w]));
            }
            assert forall|k: i64|
                #[trigger] self@.dom().contains(k) && spec_matches(self@[k], *filter) && !id_in(
                    result@,
                    k,
                ) implies result@.len() == limit && (forall|i: int|
                0 <= i < result@.len() ==> (#[trigger] result@[i]).count >= self@[k].count) by {
                let u = choose|u: int| 0 <= u < rows@.len() && rows@[u].id == k;
                assert(self@.contains_pair(rows@[u].id, rows@[u]));
                let x = rows@[u];
                assert(x == self@[k]);
                assert(pred@(x));
                assert(rows_seq.contains(x));
                assert(sorted_seq.contains(x));
                let p = choose|p: int| 0 <= p < sorted_seq.len() && sorted_seq[p] == x;
                assert(p >= result@.len()) by {
                    if p < result@.len() {
                        assert(result@[p] == x);
                        assert(id_in(result@, k));
                    }
                }
                assert(result@.len() == limit);
                assert forall|i: int|
                    0 <= i < result@.len() implies (#[trigger] result@[i]).count
                        >= self@[k].count by {
                    assert(result@[i] == sorted_seq[i]);
                    assert(sorted_seq[i].count >= sorted_seq[p].count);
                }
            }
        }
        result
    }
}

} // verus!
