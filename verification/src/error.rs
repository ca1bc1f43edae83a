//! The error taxonomy of the engine.
//!
//! Validation errors (zero amount, wrong denomination, missing
//! configuration) are surfaced before any state is touched.  The
//! invariant-violation error [`ContractError::BondedMismatch`] is fatal
//! and signals operator-level inconsistency between the cached and the
//! observed staking state.  Insufficiency errors (insufficient ledger
//! balance, custody below the minimum, nothing claimable) are recoverable
//! by the caller once conditions change.  On every error the engine
//! leaves its state exactly as it was.

use vstd::prelude::*;

verus! {

#[derive(Clone, Debug, PartialEq)]
pub enum ContractError {
    /// The self-call guard of the reinvestment chain rejected the caller.
    Unauthorized,
    /// A transfer or conversion of zero tokens was requested.
    InvalidZeroAmount,
    /// The caller's ledger balance does not cover the requested amount.
    InsufficientBalance,
    /// The 1:1 converter is disabled because no bank denomination is set.
    BankDenomNotSet,
    /// The coin handed to the converter is not the configured bank
    /// denomination.
    InvalidBankDenom,
    /// Minting would push the total supply above the configured cap.
    CannotExceedCap,
    /// Two initial balances name the same account.
    DuplicateInitialBalanceAddresses,
    /// The attached payment holds no coin of the bond denomination.
    EmptyBalance,
    /// The externally observed bonded amount diverges from the cached
    /// one: a fatal reconciliation failure, not a retryable condition.
    BondedMismatch { stored: u128, queried: u128 },
    /// The unbonded amount is below the configured withdrawal floor.
    UnbondTooSmall { min_withdrawal: u128 },
    /// The contract's custody balance is below the withdrawal floor;
    /// worth retrying once more funds have arrived.
    BalanceTooSmall,
    /// No matured claim could be paid out.
    NothingToClaim,
    /// The staking subsystem reported delegations of mixed
    /// denominations.
    DifferentBondDenom { denom1: String, denom2: String },
    /// An amount computation exceeded the 128-bit range.
    Overflow,
    /// A ratio computation divided by zero (no derivative tokens are
    /// issued against a non-empty request).
    DivideByZero,
}

} // verus!
