use vstd::prelude::*;

verus! {

/// Why an operation was rejected. Every failure is atomic: the ledger and the
/// balance store are exactly as they were before the call.
#[derive(Clone, Copy, PartialEq, Eq, Structural, Debug)]
pub enum Error {
    /// The caller of an admin-only operation is not the admin.
    Unauthorized,
    /// A redemption asked for more than the caller's balance.
    InsufficientBalance,
    /// A mint, burn, or counter update would leave the representable range.
    ArithmeticFault,
}

} // verus!
