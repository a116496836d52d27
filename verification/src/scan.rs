//! The channel scanner's decisions: which channels a scan cycle visits,
//! and when backward pagination through a channel's messages stops.
//!
//! Retrieval itself is network work and stays with the presentation layer,
//! which fetches one batch at a time (newest first) and feeds each batch to
//! the scan state below.

use vstd::prelude::*;

use crate::record::MessageData;

verus! {

/// How many messages one retrieval batch asks for.
pub const MESSAGES_TO_CHECK: u8 = 100;

/// The community whose channels are scanned.
pub const GUILD_ID: u64 = 561602796286378029;

/// Whether a channel is excluded from scanning (moderation and meta
/// channels).
pub open spec fn spec_denylisted(channel_id: u64) -> bool {
    ||| channel_id == 742849340418293913
    ||| channel_id == 563103686612746250
    ||| channel_id == 563220076707315754
    ||| channel_id == 871756996452438086
    ||| channel_id == 748004690418991117
}

/// The channels a scan cycle skips.
pub open spec fn scannable_filter() -> spec_fn(u64) -> bool {
    |id: u64| !spec_denylisted(id)
}

/// Whether a channel is excluded from scanning.
pub fn is_denylisted(channel_id: u64) -> (r: bool)
    ensures
        r == spec_denylisted(channel_id),
{
    channel_id == 742849340418293913 || channel_id == 563103686612746250 || channel_id
        == 563220076707315754 || channel_id == 871756996452438086 || channel_id
        == 748004690418991117
}

/// Filters a community's channels down to the ones a scan visits, keeping
/// their order.
pub fn channels_to_scan(channel_ids: &Vec<u64>) -> (r: Vec<u64>)
    ensures
        r@ == channel_ids@.filter(scannable_filter()),
{
    let mut kept: Vec<u64> = Vec::new();
    let mut i: usize = 0;
    while i < channel_ids.len()
        invariant
            i <= channel_ids.len(),
            kept@ == channel_ids@.take(i as int).filter(scannable_filter()),
        decreases channel_ids.len() - i,
    {
        proof {
            assert(channel_ids@.take(i + 1 as int) =~= channel_ids@.take(i as int).push(
                channel_ids@[i as int],
            ));
            channel_ids@.take(i as int).lemma_filter_push(
                channel_ids@[i as int],
                scannable_filter(),
            );
        }
        if !is_denylisted(channel_ids[i]) {
            kept.push(channel_ids[i]);
        }
        i = i + 1;
    }
    proof {
        assert(channel_ids@.take(channel_ids@.len() as int) =~= channel_ids@);
    }
    kept
}

/// The state of one channel's backward pagination: the messages retrieved
/// so far, the id to page back from, and whether the scan is finished.
pub struct ScanState {
    /// Every message retrieved so far, newest first.
    pub collected: Vec<MessageData>,
    /// The id of the oldest message retrieved, the cursor for the next
    /// batch.
    pub cursor: Option<i64>,
    /// Whether pagination has stopped.
    pub done: bool,
}

impl ScanState {
    /// A scan that has retrieved nothing yet.
    pub fn new() -> (r: ScanState)
        ensures
            r.collected@ == Seq::<MessageData>::empty(),
            r.cursor is None,
            !r.done,
    {
        ScanState { collected: Vec::new(), cursor: None, done: false }
    }

    /// Takes in one retrieved batch (newest first) and decides whether to
    /// continue. An empty batch stops the scan. Otherwise the batch is
    /// collected, the cursor moves to its oldest message, and the scan
    /// stops when no window is set (cheap poll mode: first batch only) or
    /// when the window's lower bound has been passed.
    pub fn step(&mut self, batch: Vec<MessageData>, window: Option<i64>)
        requires
            !old(self).done,
        ensures
            batch@.len() == 0 ==> {
                &&& final(self).collected == old(self).collected
                &&& final(self).cursor == old(self).cursor
                &&& final(self).done
            },
            batch@.len() > 0 ==> {
                &&& final(self).collected@ == old(self).collected@ + batch@
                &&& final(self).cursor == Some(batch@.last().id)
                &&& (window is None ==> final(self).done)
                &&& (window is Some ==> final(self).done == (batch@.last().timestamp
                    < window.unwrap()))
            },
    {
        let mut batch = batch;
        if batch.len() == 0 {
            self.done = true;
            return;
        }
        let oldest_id = batch[batch.len() - 1].id;
        let oldest_timestamp = batch[batch.len() - 1].timestamp;
        self.collected.append(&mut batch);
        self.cursor = Some(oldest_id);
        self.done = match window {
            None => true,
            Some(w) => oldest_timestamp < w,
        };
    }
}

} // verus!
