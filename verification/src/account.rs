use vstd::prelude::*;

verus! {

/// An account identity of the hosting environment, reduced to the one thing
/// the ledger's rules ever ask of it: whether two identities are the same.
#[derive(Clone, Copy, PartialEq, Eq, Structural, Debug)]
pub struct AccountId {
    pub id: u64,
}

impl AccountId {
    pub fn new(id: u64) -> (a: AccountId)
        ensures
            a.id == id,
    {
        AccountId { id }
    }
}

} // verus!
