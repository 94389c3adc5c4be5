use vstd::prelude::*;

verus! {

/// The ways an operation on the treasury can fail. Every precondition
/// failure aborts the whole operation with no state change.
#[derive(Clone, Copy, Debug, PartialEq, Eq)]
pub enum TreasuryError {
    /// Initialize was attempted for an owner whose record already exists.
    AlreadyInitialized,
    /// A value account does not meet the ledger's minimum reserve.
    InsufficientReserve,
    /// The withdraw caller does not match the record's stored owner.
    UnauthorizedWithdrawal,
    /// A withdraw was attempted before initialization completed.
    TreasuryNotInitialized,
    /// A supplied address does not match its canonical derivation.
    InvalidWalletDerivation,
    /// A withdraw asks for more than the spendable balance.
    InsufficientFunds,
    /// The ledger's transfer primitive rejected the request.
    TransferFailed,
}

} // verus!
