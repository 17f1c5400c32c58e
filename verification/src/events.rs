use vstd::prelude::*;
use crate::account::AccountId;

verus! {

/// Logged once per successful issuance.
#[derive(Clone, Copy, PartialEq, Eq, Structural, Debug)]
pub struct PointsIssued {
    pub customer: AccountId,
    pub amount: u64,
    pub timestamp: u64,
}

/// Logged once per successful redemption. The reward reference is opaque:
/// the ledger records it and never interprets it.
#[derive(Debug)]
pub struct RewardRedeemed {
    pub user: AccountId,
    pub amount: u64,
    pub reward_id: String,
    pub timestamp: u64,
}

/// One entry of the append-only event log.
#[derive(Debug)]
pub enum Event {
    PointsIssued(PointsIssued),
    RewardRedeemed(RewardRedeemed),
}

/// The sum of the amounts of every redemption event in a log.
pub open spec fn sum_redeemed(log: Seq<Event>) -> nat
    decreases log.len(),
{
    if log.len() == 0 {
        0
    } else {
        sum_redeemed(log.drop_last()) + (match log.last() {
            Event::RewardRedeemed(e) => e.amount as nat,
            Event::PointsIssued(_) => 0nat,
        })
    }
}

/// Appending an event raises the redeemed sum by the event's amount if it is
/// a redemption, and leaves it unchanged otherwise.
pub proof fn lemma_sum_redeemed_push(log: Seq<Event>, ev: Event)
    ensures
        sum_redeemed(log.push(ev)) == sum_redeemed(log) + (match ev {
            Event::RewardRedeemed(e) => e.amount as nat,
            Event::PointsIssued(_) => 0nat,
        }),
{
    assert(log.push(ev).drop_last() =~= log);
    assert(log.push(ev).last() == ev);
}

} // verus!
