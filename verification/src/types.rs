//! Identities, errors and observable events shared by both ledgers.

use vstd::prelude::*;

verus! {

/// An opaque identity: an account or a contract address. A principal
/// both holds balances and serves as an authorization subject; the
/// core assumes nothing about its internal structure beyond equality.
#[derive(Clone, Copy, PartialEq, Eq, Structural, Debug, Hash)]
pub struct Principal {
    pub id: u64,
}

/// Why a ledger operation was refused. Every refusal leaves the
/// ledger exactly as it was: operations are all-or-nothing.
#[derive(Clone, Copy, PartialEq, Eq, Structural, Debug)]
pub enum TokenError {
    /// The call was not authorized by the principal the operation requires.
    Unauthorized,
    /// The amount was not positive (for mint and distribute) or was
    /// negative (for transfer).
    InvalidAmount,
    /// A debit would exceed the payer's stored balance.
    InsufficientBalance,
    /// Distribution was asked to cover an empty holder list.
    EmptyHolderSet,
    /// Distribution found the base token's total supply at zero.
    ZeroCwtSupply,
}

/// What a ledger publishes for external indexers. Plain transfers
/// publish nothing; mint, burn and distribution each leave one event.
pub enum Event {
    Mint { to: Principal, amount: i128 },
    Burn { from: Principal, amount: i128 },
    Distribution { total_distributed: i128, holders: Vec<Principal> },
}

} // verus!
