//! A model of the durable store: one table of records keyed by message id,
//! written only by upserts. The presentation layer mirrors every operation
//! performed here onto the real database, row for row; the reconciliation
//! logic itself — what a full flush sweep does to the table, and why a
//! partially failed sweep is safe to repeat — lives here.

use vstd::prelude::*;

use crate::merge::lemma_merged_dom;
use crate::merge::lemma_merged_pairs;
use crate::merge::lemma_merged_push;
use crate::merge::lemma_to_map_len;
use crate::merge::lemma_unique_implies_consistent;
use crate::merge::merged;
use crate::merge::to_map;
use crate::merge::unique_ids;
use crate::merge::upsert_record;
use crate::record::BestOfMessage;

verus! {

/// The durable table of records, keyed by message id.
pub struct PersistedStore {
    rows: Vec<BestOfMessage>,
}

impl View for PersistedStore {
    type V = Map<i64, BestOfMessage>;

    closed spec fn view(&self) -> Map<i64, BestOfMessage> {
        to_map(self.rows@)
    }
}

impl PersistedStore {
    #[verifier::type_invariant]
    spec fn wf(self) -> bool {
        unique_ids(self.rows@)
    }

    /// An empty table.
    pub fn new() -> (r: PersistedStore)
        ensures
            r@ == Map::<i64, BestOfMessage>::empty(),
    {
        let rows: Vec<BestOfMessage> = Vec::new();
        proof {
            assert(to_map(rows@) == Map::<i64, BestOfMessage>::empty());
        }
        PersistedStore { rows }
    }

    /// Inserts the record under its id, updating every column of an
    /// existing row on conflict.
    pub fn upsert(&mut self, message: &BestOfMessage)
        ensures
            final(self)@ == old(self)@.insert(message.id, *message),
    {
        proof {
            use_type_invariant(&*self);
        }
        let mut rows: Vec<BestOfMessage> = Vec::new();
        std::mem::swap(&mut rows, &mut self.rows);
        let _was_new = upsert_record(&mut rows, message.duplicate());
        self.rows = rows;
    }

    /// Upserts every given record, in order.
    pub fn upsert_all(&mut self, messages: &Vec<BestOfMessage>)
        ensures
            final(self)@ == merged(old(self)@, messages@),
    {
        proof {
            use_type_invariant(&*self);
        }
        let ghost m0 = self@;
        let mut rows: Vec<BestOfMessage> = Vec::new();
        std::mem::swap(&mut rows, &mut self.rows);
        let mut i: usize = 0;
        while i < messages.len()
            invariant
                i <= messages.len(),
                unique_ids(rows@),
                to_map(rows@) == merged(m0, messages@.take(i as int)),
            decreases messages.len() - i,
        {
            proof {
                assert(messages@.take(i + 1 as int) =~= messages@.take(i as int).push(
                    messages@[i as int],
                ));
                lemma_merged_push(m0, messages@.take(i as int), messages@[i as int]);
            }
            let _was_new = upsert_record(&mut rows, messages[i].duplicate());
            i = i + 1;
        }
        proof {
            assert(messages@.take(messages@.len() as int) =~= messages@);
        }
        self.rows = rows;
    }

    /// Reads every row of the table: one per stored id, each standing in
    /// the table under its id, with nothing left out.
    pub fn load_all(&self) -> (rows: Vec<BestOfMessage>)
        ensures
            unique_ids(rows@),
            rows@.len() == self@.dom().len(),
            forall|i: int|
                0 <= i < rows@.len() ==> self@.contains_pair((#[trigger] rows@[i]).id, rows@[i]),
            forall|k: i64|
                #[trigger] self@.dom().contains(k) ==> exists|i: int|
                    0 <= i < rows@.len() && rows@[i].id == k,
    {
        proof {
            use_type_invariant(&*self);
            lemma_to_map_len(self.rows@);
            lemma_unique_implies_consistent(self.rows@);
            lemma_merged_pairs(Map::empty(), self.rows@);
            lemma_merged_dom(Map::empty(), self.rows@);
        }
        let mut rows: Vec<BestOfMessage> = Vec::new();
        let mut i: usize = 0;
        while i < self.rows.len()
            invariant
                i <= self.rows.len(),
                rows@ =~= self.rows@.take(i as int),
            decreases self.rows.len() - i,
        {
            rows.push(self.rows[i].duplicate());
            proof {
                assert(self.rows@.take(i + 1 as int) =~= self.rows@.take(i as int).push(
                    self.rows@[i as int],
                ));
            }
            i = i + 1;
        }
        proof {
            assert(rows@ =~= self.rows@);
        }
        rows
    }

    /// The number of rows the table holds.
    pub fn row_count(&self) -> (n: usize)
        ensures
            n == self@.dom().len(),
    {
        proof {
            use_type_invariant(&*self);
            lemma_to_map_len(self.rows@);
        }
        self.rows.len()
    }
}

} // verus!
