//! Accounting core of a token contract that bridges three value
//! representations: a native settlement asset held by a bank module, a
//! fungible derivative-token balance ledger, and an externally custodied
//! staking position.
//!
//! The engine reconciles the three views under partial, asynchronous
//! settlement: delegation and undelegation happen outside the contract's
//! atomic boundary, so every mutating operation re-checks the externally
//! observed bonded amount against its own cache before touching state.
//! Outbound settlement work (delegate, undelegate, transfers) is returned
//! as plain [`contract::Instruction`] values for the host to dispatch.

mod arith;
pub mod claims;
pub mod contract;
pub mod error;
pub mod laws;
pub mod ledger;
pub mod state;
