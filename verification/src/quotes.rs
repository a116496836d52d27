//! A stored quotation, as kept in the quotes table.

use vstd::prelude::*;

verus! {

/// One stored quotation: its row id, the text, and who said it.
#[derive(Debug, Clone, PartialEq)]
pub struct QuoteMessage {
    pub id: i32,
    pub quote: String,
    pub author: String,
}

impl QuoteMessage {
    /// An exact copy: every field of the result equals this one's.
    pub fn duplicate(&self) -> (r: QuoteMessage)
        ensures
            r == *self,
    {
        QuoteMessage { id: self.id, quote: self.quote.clone(), author: self.author.clone() }
    }
}

} // verus!
