//! The notability filter: the pure predicate deciding whether a message is
//! tracked, together with the two reaction aggregates it rests on.
//!
//! A message qualifies only when its author is not automated, it has at
//! least one reaction, and the highest count on a *single* reaction type
//! reaches the threshold. The *sum* of all reaction-type counts is computed
//! separately, for display and sorting only; the notability test never looks at it.

use vstd::prelude::*;

use crate::record::BestOfMessage;
use crate::record::MessageData;
use crate::MINIMUM_REACTIONS;

verus! {

/// The largest element of a sequence of counts, `0` for the empty sequence.
pub open spec fn seq_max(s: Seq<u64>) -> int
    decreases s.len(),
{
    if s.len() == 0 {
        0
    } else if s.last() as int > seq_max(s.drop_last()) {
        s.last() as int
    } else {
        seq_max(s.drop_last())
    }
}

/// The sum of a sequence of counts.
pub open spec fn seq_sum(s: Seq<u64>) -> int
    decreases s.len(),
{
    if s.len() == 0 {
        0
    } else {
        seq_sum(s.drop_last()) + s.last()
    }
}

/// A sum clipped to what an `i64` can hold.
pub open spec fn clip_i64(x: int) -> int {
    if x > i64::MAX {
        i64::MAX as int
    } else {
        x
    }
}

/// Whether a message is notable: not authored by an automated account, at
/// least one reaction, and some single reaction type at or above the
/// threshold.
pub open spec fn spec_is_notable(m: MessageData) -> bool {
    &&& !m.author_is_bot
    &&& m.reaction_counts@.len() > 0
    &&& seq_max(m.reaction_counts@) >= MINIMUM_REACTIONS
}

/// The notability predicate as a filter function, for stating what a whole
/// batch filters down to.
pub open spec fn notable_filter() -> spec_fn(MessageData) -> bool {
    |m: MessageData| spec_is_notable(m)
}

/// Extracts the highest count among the message's reaction types.
pub fn number_of_users_reacted(message: &MessageData) -> (r: u64)
    ensures
        r as int == seq_max(message.reaction_counts@),
{
    let mut highest_count: u64 = 0;
    let mut i: usize = 0;
    while i < message.reaction_counts.len()
        invariant
            i <= message.reaction_counts.len(),
            highest_count as int == seq_max(message.reaction_counts@.take(i as int)),
        decreases message.reaction_counts.len() - i,
    {
        let current = message.reaction_counts[i];
        proof {
            let t = message.reaction_counts@.take(i + 1 as int);
            assert(t.drop_last() =~= message.reaction_counts@.take(i as int));
            assert(t.last() == message.reaction_counts@[i as int]);
        }
        if highest_count < current {
            highest_count = current;
        }
        i = i + 1;
    }
    proof {
        assert(message.reaction_counts@.take(message.reaction_counts@.len() as int)
            =~= message.reaction_counts@);
    }
    highest_count
}

/// Extracts the total count of reactions across all reaction types,
/// saturating at `i64::MAX`.
pub fn total_number_of_reactions(message: &MessageData) -> (r: i64)
    ensures
        r as int == clip_i64(seq_sum(message.reaction_counts@)),
{
    let mut total: i64 = 0;
    let mut i: usize = 0;
    while i < message.reaction_counts.len()
        invariant
            i <= message.reaction_counts.len(),
            0 <= total,
            total as int == clip_i64(seq_sum(message.reaction_counts@.take(i as int))),
            seq_sum(message.reaction_counts@.take(i as int)) >= total as int,
        decreases message.reaction_counts.len() - i,
    {
        let current = message.reaction_counts[i];
        proof {
            let t = message.reaction_counts@.take(i + 1 as int);
            assert(t.drop_last() =~= message.reaction_counts@.take(i as int));
            assert(t.last() == message.reaction_counts@[i as int]);
        }
        if current <= (i64::MAX - total) as u64 {
            total = total + (current as i64);
        } else {
            total = i64::MAX;
        }
        i = i + 1;
    }
    proof {
        assert(message.reaction_counts@.take(message.reaction_counts@.len() as int)
            =~= message.reaction_counts@);
    }
    total
}

/// Whether a message meets the criteria for being tracked.
pub fn is_notable(message: &MessageData) -> (r: bool)
    ensures
        r == spec_is_notable(*message),
{
    if message.author_is_bot {
        return false;
    }
    if message.reaction_counts.len() == 0 {
        return false;
    }
    number_of_users_reacted(message) >= MINIMUM_REACTIONS
}

/// Checks whether a message meets the criteria, passing it through when it
/// does and dropping it when it does not.
pub fn message_meets_criteria(message: MessageData) -> (r: Option<MessageData>)
    ensures
        spec_is_notable(message) ==> r == Some(message),
        !spec_is_notable(message) ==> r is None,
{
    if is_notable(&message) {
        Some(message)
    } else {
        None
    }
}

/// Filters a retrieved batch down to the messages that meet the criteria,
/// keeping their order.
pub fn get_reacted_messages(retrieved_messages: Vec<MessageData>) -> (r: Vec<MessageData>)
    ensures
        r@ == retrieved_messages@.filter(notable_filter()),
{
    let ghost orig = retrieved_messages@;
    let mut remaining = retrieved_messages;
    let mut reacted_messages: Vec<MessageData> = Vec::new();
    let ghost mut i: int = 0;
    while remaining.len() > 0
        invariant
            0 <= i <= orig.len(),
            remaining@ =~= orig.skip(i),
            reacted_messages@ == orig.take(i).filter(notable_filter()),
        decreases remaining.len(),
    {
        let message = remaining.remove(0);
        proof {
            assert(message == orig[i]);
            assert(remaining@ =~= orig.skip(i + 1));
            assert(orig.take(i + 1) =~= orig.take(i).push(orig[i]));
            orig.take(i).lemma_filter_push(orig[i], notable_filter());
        }
        if is_notable(&message) {
            reacted_messages.push(message);
        }
        proof {
            i = i + 1;
        }
    }
    proof {
        assert(orig.take(i) =~= orig);
    }
    reacted_messages
}

/// Builds the cache record for a qualifying message: all display fields are
/// snapshots of the message, and `count` is the sum of the reaction-type
/// counts.
pub open spec fn record_of(d: MessageData) -> BestOfMessage {
    BestOfMessage {
        id: d.id,
        author: d.author,
        content: d.content,
        link: d.link,
        channel: d.channel,
        count: clip_i64(seq_sum(d.reaction_counts@)) as i64,
        timestamp: d.timestamp,
        image: d.image,
    }
}

impl BestOfMessage {
    /// Converts a message snapshot into the record stored for it.
    pub fn from_message_data(d: &MessageData) -> (r: BestOfMessage)
        ensures
            r == record_of(*d),
    {
        BestOfMessage {
            id: d.id,
            author: d.author.clone(),
            content: d.content.clone(),
            link: d.link.clone(),
            channel: d.channel.clone(),
            count: total_number_of_reactions(d),
            timestamp: d.timestamp,
            image: match &d.image {
                Some(x) => Some(x.clone()),
                None => None,
            },
        }
    }
}

} // verus!
