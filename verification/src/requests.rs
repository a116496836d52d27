//! A feature request, as kept in the requests table and voted on.

use vstd::prelude::*;

verus! {

/// One feature request: its row id, the wording, who filed it, and how
/// many votes it has gathered.
#[derive(Debug, Clone, PartialEq, Eq)]
pub struct FeatureRequest {
    pub id: i32,
    pub request: String,
    pub user: String,
    pub votes: i32,
}

impl FeatureRequest {
    /// An exact copy: every field of the result equals this one's.
    pub fn duplicate(&self) -> (r: FeatureRequest)
        ensures
            r == *self,
    {
        FeatureRequest {
            id: self.id,
            request: self.request.clone(),
            user: self.user.clone(),
            votes: self.votes,
        }
    }
}

} // verus!
