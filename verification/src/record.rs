//! The data model: a snapshot of a chat message as retrieved from the
//! platform, and the record kept for each notable message.

use vstd::prelude::*;

verus! {

/// The plain-value snapshot of one chat message, as the presentation layer
/// hands it to the engine: author identity and bot flag, text content,
/// permalink, the per-reaction-type counts, creation instant (unix seconds)
/// and an optional attachment URL. The channel display name is resolved by
/// the caller and carried along.
pub struct MessageData {
    pub id: i64,
    pub author: String,
    pub author_is_bot: bool,
    pub content: String,
    pub link: String,
    pub channel: String,
    pub reaction_counts: Vec<u64>,
    pub timestamp: i64,
    pub image: Option<String>,
}

/// One entry of the runtime cache and of the durable store: a qualifying
/// message with its display fields, keyed by the platform message id.
/// `count` is the sum of all reaction-type counts and is the only field
/// expected to change when the message is observed again.
#[derive(Debug, Clone, PartialEq)]
pub struct BestOfMessage {
    pub id: i64,
    pub author: String,
    pub content: String,
    pub link: String,
    pub channel: String,
    pub count: i64,
    pub timestamp: i64,
    pub image: Option<String>,
}

impl BestOfMessage {
    /// An exact copy: every field of the result equals this one's.
    pub fn duplicate(&self) -> (r: BestOfMessage)
        ensures
            r == *self,
    {
        BestOfMessage {
            id: self.id,
            author: self.author.clone(),
            content: self.content.clone(),
            link: self.link.clone(),
            channel: self.channel.clone(),
            count: self.count,
            timestamp: self.timestamp,
            image: clone_opt_string(&self.image),
        }
    }
}

/// Copies an optional string, preserving both the variant and the contents.
fn clone_opt_string(s: &Option<String>) -> (r: Option<String>)
    ensures
        r == *s,
{
    match s {
        Some(x) => Some(x.clone()),
        None => None,
    }
}

} // verus!
