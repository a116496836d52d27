//! The runtime cache: the authoritative in-process index of notable
//! messages, a mapping from message id to record.
//!
//! A merge reconciles freshly scanned records into the cache and reports
//! exactly the records whose id was seen for the first time; re-observing a
//! known message silently refreshes its snapshot. Loading from the durable
//! store replaces the contents wholesale. Records are never deleted:
//! notability is monotonic.

use vstd::prelude::*;

use crate::merge::lemma_merged_dom;
use crate::merge::lemma_merged_is_union;
use crate::merge::lemma_merged_pairs;
use crate::merge::lemma_merged_push;
use crate::merge::lemma_newly_push;
use crate::merge::lemma_to_map_len;
use crate::merge::lemma_unique_implies_consistent;
use crate::merge::merged;
use crate::merge::newly_added;
use crate::merge::to_map;
use crate::merge::unique_ids;
use crate::merge::upsert_record;
use crate::record::BestOfMessage;
use crate::rng::fresh_rng;
use crate::rng::rng_below;
use crate::store::PersistedStore;

verus! {

/// Why a query on the cache yielded nothing.
#[derive(Clone, Copy, Debug, PartialEq, Eq)]
pub enum BestOfError {
    /// The cache holds no records: a normal, user-facing outcome, never a
    /// crash.
    NoMessagesAvailable,
    /// The operating system's randomness source failed while picking.
    RandomSourceFailed,
}

impl BestOfError {
    /// The user-facing wording of the error.
    pub fn message(&self) -> (r: &'static str)
        ensures
            *self == BestOfError::NoMessagesAvailable ==> r@ == "No messages available"@,
            *self == BestOfError::RandomSourceFailed ==> r@ == "Random source failed"@,
    {
        match self {
            BestOfError::NoMessagesAvailable => "No messages available",
            BestOfError::RandomSourceFailed => "Random source failed",
        }
    }
}

/// The records one channel's scan contributed, tagged with the channel.
pub struct ChannelBatch {
    pub channel_id: u64,
    pub messages: Vec<BestOfMessage>,
}

/// All records of a scan result, channel after channel, in order.
pub open spec fn flatten_batches(bs: Seq<ChannelBatch>) -> Seq<BestOfMessage>
    decreases bs.len(),
{
    if bs.len() == 0 {
        Seq::empty()
    } else {
        flatten_batches(bs.drop_last()) + bs.last().messages@
    }
}

/// The runtime cache of notable messages, keyed by message id.
pub struct BestOf {
    records: Vec<BestOfMessage>,
}

impl View for BestOf {
    type V = Map<i64, BestOfMessage>;

    closed spec fn view(&self) -> Map<i64, BestOfMessage> {
        to_map(self.records@)
    }
}

impl BestOf {
    #[verifier::type_invariant]
    spec fn wf(self) -> bool {
        unique_ids(self.records@)
    }

    /// An empty cache.
    pub fn new() -> (r: BestOf)
        ensures
            r@ == Map::<i64, BestOfMessage>::empty(),
    {
        let records: Vec<BestOfMessage> = Vec::new();
        proof {
            assert(to_map(records@) == Map::<i64, BestOfMessage>::empty());
        }
        BestOf { records }
    }

    /// Merges one channel's records into the cache: a record whose id is
    /// already present overwrites the stored entry, one with a fresh id is
    /// inserted. Returns, in order, exactly the freshly inserted records.
    pub fn update_messages_for_channel(&mut self, messages: &Vec<BestOfMessage>) -> (news: Vec<
        BestOfMessage,
    >)
        ensures
            final(self)@ == merged(old(self)@, messages@),
            news@ == newly_added(old(self)@, messages@),
    {
        proof {
            use_type_invariant(&*self);
        }
        let mut records: Vec<BestOfMessage> = Vec::new();
        std::mem::swap(&mut records, &mut self.records);
        let news = merge_records(&mut records, messages);
        self.records = records;
        news
    }

    /// Merges a whole scan result, channel after channel. A channel's
    /// records are merged exactly as `update_messages_for_channel` merges
    /// them; the returned records are the freshly inserted ones of all
    /// channels, in scan order.
    pub fn update_runtime_db_from_new_bestof(&mut self, current_messages: &Vec<ChannelBatch>) -> (
    news: Vec<BestOfMessage>)
        ensures
            final(self)@ == merged(old(self)@, flatten_batches(current_messages@)),
            news@ == newly_added(old(self)@, flatten_batches(current_messages@)),
    {
        let ghost m0 = self@;
        let mut news: Vec<BestOfMessage> = Vec::new();
        let mut i: usize = 0;
        proof {
            assert(flatten_batches(current_messages@.take(0)) =~= Seq::<BestOfMessage>::empty());
        }
        while i < current_messages.len()
            invariant
                i <= current_messages.len(),
                self@ == merged(m0, flatten_batches(current_messages@.take(i as int))),
                news@ == newly_added(m0, flatten_batches(current_messages@.take(i as int))),
            decreases current_messages.len() - i,
        {
            let ghost prefix = flatten_batches(current_messages@.take(i as int));
            let ghost batch = current_messages@[i as int].messages@;
            proof {
                assert(current_messages@.take(i + 1 as int).drop_last() =~= current_messages@.take(
                    i as int,
                ));
                assert(current_messages@.take(i + 1 as int).last() == current_messages@[i as int]);
                assert(flatten_batches(current_messages@.take(i + 1 as int)) == prefix + batch);
                crate::merge::lemma_merged_concat(m0, prefix, batch);
                crate::merge::lemma_newly_concat(m0, prefix, batch);
            }
            let mut batch_news = self.update_messages_for_channel(&current_messages[i].messages);
            news.append(&mut batch_news);
            i = i + 1;
        }
        proof {
            assert(current_messages@.take(current_messages@.len() as int) =~= current_messages@);
        }
        news
    }

    /// Replaces the cache contents wholesale with what the durable store
    /// holds. Used once, at startup, before any scan has run.
    pub fn load_from_persisted_db(&mut self, messages: Vec<BestOfMessage>)
        ensures
            final(self)@ == to_map(messages@),
    {
        proof {
            use_type_invariant(&*self);
        }
        let mut records: Vec<BestOfMessage> = Vec::new();
        proof {
            assert(to_map(records@) == Map::<i64, BestOfMessage>::empty());
        }
        let _news = merge_records(&mut records, &messages);
        self.records = records;
    }

    /// The number of records currently tracked.
    pub fn current_size(&self) -> (n: usize)
        ensures
            n == self@.dom().len(),
    {
        proof {
            use_type_invariant(&*self);
            lemma_to_map_len(self.records@);
        }
        self.records.len()
    }

    /// Picks one record uniformly from the cache, with a fresh, securely
    /// seeded generator for this call alone. An empty cache is reported as
    /// `NoMessagesAvailable`; whatever is returned is a record the cache
    /// holds under its id.
    pub fn get_random_bestof(&self) -> (r: Result<BestOfMessage, BestOfError>)
        ensures
            (self@.dom().len() == 0) <==> (r == Err::<BestOfMessage, BestOfError>(
                BestOfError::NoMessagesAvailable,
            )),
            r is Ok ==> self@.contains_pair(r.unwrap().id, r.unwrap()),
    {
        proof {
            use_type_invariant(&*self);
            lemma_to_map_len(self.records@);
            lemma_unique_implies_consistent(self.records@);
            lemma_merged_pairs(Map::empty(), self.records@);
        }
        if self.records.len() == 0 {
            return Err(BestOfError::NoMessagesAvailable);
        }
        match fresh_rng() {
            None => Err(BestOfError::RandomSourceFailed),
            Some(mut rng) => {
                let idx = rng_below(&mut rng, self.records.len());
                Ok(self.records[idx].duplicate())
            },
        }
    }

    /// Flushes the whole cache into the durable store: every record is
    /// upserted under its id, so afterwards the store holds the cache's
    /// entries on top of whatever else it held.
    pub fn update_persisted_db(&self, persist_db: &mut PersistedStore)
        ensures
            final(persist_db)@ == old(persist_db)@.union_prefer_right(self@),
    {
        let rows = self.all_records();
        proof {
            crate::merge::lemma_load_then_flush_unchanged(self@, rows@);
            lemma_merged_is_union(persist_db@, rows@);
        }
        persist_db.upsert_all(&rows);
    }

    /// A snapshot of every record in the cache: one row per tracked id,
    /// each standing in the cache under its id, with nothing left out.
    pub fn all_records(&self) -> (rows: Vec<BestOfMessage>)
        ensures
            unique_ids(rows@),
            rows@.len() == self@.dom().len(),
            forall|i: int|
                0 <= i < rows@.len() ==> self@.contains_pair((#[trigger] rows@[i]).id, rows@[i]),
            forall|k: i64|
                #[trigger] self@.dom().contains(k) ==> exists|i: int|
                    0 <= i < rows@.len() && rows@[i].id == k,
    {
        proof {
            use_type_invariant(&*self);
            lemma_to_map_len(self.records@);
            lemma_unique_implies_consistent(self.records@);
            lemma_merged_pairs(Map::empty(), self.records@);
            lemma_merged_dom(Map::empty(), self.records@);
        }
        let mut rows: Vec<BestOfMessage> = Vec::new();
        let mut i: usize = 0;
        while i < self.records.len()
            invariant
                i <= self.records.len(),
                rows@ =~= self.records@.take(i as int),
            decreases self.records.len() - i,
        {
            rows.push(self.records[i].duplicate());
            proof {
                assert(self.records@.take(i + 1 as int) =~= self.records@.take(i as int).push(
                    self.records@[i as int],
                ));
            }
            i = i + 1;
        }
        proof {
            assert(rows@ =~= self.records@);
        }
        rows
    }
}

/// Merges a sequence of records into an id-unique record vector, returning
/// the freshly inserted ones.
fn merge_records(records: &mut Vec<BestOfMessage>, messages: &Vec<BestOfMessage>) -> (news: Vec<
    BestOfMessage,
>)
    requires
        unique_ids(old(records)@),
    ensures
        unique_ids(final(records)@),
        to_map(final(records)@) == merged(to_map(old(records)@), messages@),
        news@ == newly_added(to_map(old(records)@), messages@),
{
    let ghost m0 = to_map(records@);
    let mut news: Vec<BestOfMessage> = Vec::new();
    let mut i: usize = 0;
    while i < messages.len()
        invariant
            i <= messages.len(),
            unique_ids(records@),
            to_map(records@) == merged(m0, messages@.take(i as int)),
            news@ == newly_added(m0, messages@.take(i as int)),
        decreases messages.len() - i,
    {
        let v = messages[i].duplicate();
        proof {
            assert(messages@.take(i + 1 as int) =~= messages@.take(i as int).push(
                messages@[i as int],
            ));
            lemma_merged_push(m0, messages@.take(i as int), messages@[i as int]);
            lemma_newly_push(m0, messages@.take(i as int), messages@[i as int]);
        }
        let fresh = v.duplicate();
        let was_new = upsert_record(records, v);
        if was_new {
            news.push(fresh);
        }
        i = i + 1;
    }
    proof {
        assert(messages@.take(messages@.len() as int) =~= messages@);
    }
    news
}

} // verus!
