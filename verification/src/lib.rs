//! A loyalty-point ledger over a fungible balance store.
//!
//! A single administrator, fixed at initialization, may issue points to any
//! account; any account holder may redeem their own points against an opaque
//! reward reference. The ledger keeps a running total of everything ever
//! redeemed and an append-only log with one event per successful mutation.

mod account;
mod error;
mod events;
mod ledger;
mod store;

pub use account::AccountId;
pub use error::Error;
pub use events::Event;
pub use events::PointsIssued;
pub use events::RewardRedeemed;
pub use events::sum_redeemed;
pub use ledger::CasperFidelity;
pub use ledger::LedgerView;
pub use ledger::inv;
pub use ledger::issue_outcome;
pub use ledger::issue_transition;
pub use ledger::lemma_admin_never_changes;
pub use ledger::lemma_failed_redeem_idempotent;
pub use ledger::lemma_issue_preserves_inv;
pub use ledger::lemma_non_admin_issue_rejected;
pub use ledger::lemma_overdraw_redeem_rejected;
pub use ledger::lemma_redeem_preserves_inv;
pub use ledger::lemma_total_redeemed_monotone;
pub use ledger::redeem_outcome;
pub use ledger::redeem_repeated;
pub use ledger::redeem_transition;
pub use store::BalanceStore;
