//! Typed failures returned by the ledger's mutating operations.

use vstd::prelude::*;

verus! {

/// Why a ledger operation was rejected.  Rejected operations never mutate
/// any ledger field.
#[derive(Clone, Copy, Debug, PartialEq, Eq, Structural)]
pub enum LedgerError {
    /// A non-positive or unparseable amount, quantity or price.
    InvalidAmount,
    /// A withdrawal larger than the cash balance.
    InsufficientBalance,
    /// A buy-side order or trade larger than the available cash.
    InsufficientFunds,
    /// A sell-side order or trade larger than the available quantity.
    InsufficientHoldings,
    /// The price source could not supply a quote.
    PriceUnavailable,
}

impl LedgerError {
    /// A short human-readable description, suitable for direct display.
    pub fn message(&self) -> (s: &'static str)
        ensures
            *self == LedgerError::InvalidAmount ==> s@ == "Invalid amount"@,
            *self == LedgerError::InsufficientBalance ==> s@ == "Insufficient balance"@,
            *self == LedgerError::InsufficientFunds ==> s@ == "Insufficient funds"@,
            *self == LedgerError::InsufficientHoldings ==> s@ == "Insufficient holdings"@,
            *self == LedgerError::PriceUnavailable ==> s@ == "Price unavailable"@,
    {
        match self {
            LedgerError::InvalidAmount => "Invalid amount",
            LedgerError::InsufficientBalance => "Insufficient balance",
            LedgerError::InsufficientFunds => "Insufficient funds",
            LedgerError::InsufficientHoldings => "Insufficient holdings",
            LedgerError::PriceUnavailable => "Price unavailable",
        }
    }
}

} // verus!
