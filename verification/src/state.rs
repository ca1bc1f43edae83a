//! The engine's data model: the immutable investment parameters, the
//! token bookkeeping record, and the supply reconciliation cache.

use vstd::prelude::*;

verus! {

/// Number of fractional units in one whole unit of the fixed-point
/// fraction representation used for `exit_tax` (18 decimal digits).
pub const FRACTION_UNIT: u128 = 1_000_000_000_000_000_000;

/// A settlement-asset amount paired with the identifier of its
/// denomination.
#[derive(Clone, Debug, PartialEq)]
pub struct Coin {
    pub denom: String,
    pub amount: u128,
}

/// Investment info is fixed at instantiation and controls the staking
/// relationship of the contract.
#[derive(Clone, Debug, PartialEq)]
pub struct InvestmentInfo {
    /// Account that created the contract; it takes a cut on unbonding.
    pub owner: u64,
    /// The only settlement-asset denomination accepted for staking.
    pub bond_denom: String,
    /// Seconds after which an unbond matures and can be claimed.
    pub unbonding_period: u64,
    /// Fraction of an unbonded amount retained by the owner, as a
    /// fixed-point value out of [`FRACTION_UNIT`].
    pub exit_tax: u128,
    /// All tokens are bonded to this validator.
    pub validator: String,
    /// Floor below which staking, unstaking and reinvestment are no-ops.
    pub min_withdrawal: u128,
}

impl InvestmentInfo {
    /// The exit tax is a fraction in `[0, 1]`.
    pub open spec fn wf(self) -> bool {
        self.exit_tax <= FRACTION_UNIT
    }
}

/// Minting authority and optional hard cap on the total supply.
#[derive(Clone, Debug, PartialEq)]
pub struct MinterData {
    pub minter: u64,
    pub cap: Option<u128>,
}

/// Bookkeeping for the derivative token itself.
#[derive(Clone, Debug, PartialEq)]
pub struct TokenInfo {
    /// Derivative tokens outstanding over all accounts.
    pub total_supply: u128,
    /// Minting authority; its cap bounds the total supply when present.
    pub mint: Option<MinterData>,
    /// Settlement-asset denomination accepted by the 1:1 converter;
    /// when unset, the converter is disabled.
    pub bank_denom: Option<String>,
}

impl TokenInfo {
    /// The supply cap, when a minter with a cap is configured.
    pub open spec fn spec_cap(self) -> Option<u128> {
        match self.mint {
            Some(m) => m.cap,
            None => None,
        }
    }

    pub fn get_cap(&self) -> (r: Option<u128>)
        ensures
            r == self.spec_cap(),
    {
        match &self.mint {
            Some(m) => m.cap,
            None => None,
        }
    }
}

/// The supply reconciliation cache of the bonding engine.
#[derive(Clone, Copy, Debug, PartialEq, Eq, Structural)]
pub struct Supply {
    /// Derivative tokens issued by the bonding engine and backed by the
    /// staking position.  Tokens created by the bank converter are
    /// tracked in [`TokenInfo::total_supply`] alone.
    pub issued: u128,
    /// Native tokens believed to be bonded to the validator.
    pub bonded: u128,
    /// Native tokens reserved to pay back those who unbonded.
    pub claims: u128,
}

} // verus!
