//! Bond, unbond, claim and reinvestment behaviour.

use cw20_bank::contract::{get_bonded, instantiate, Engine, Instruction};
use cw20_bank::error::ContractError;
use cw20_bank::state::{Coin, InvestmentInfo, FRACTION_UNIT};

const CONTRACT: u64 = 100;
const OWNER: u64 = 1;
const ALICE: u64 = 2;
const BOB: u64 = 3;

fn invest_with_tax(exit_tax: u128) -> InvestmentInfo {
    InvestmentInfo {
        owner: OWNER,
        bond_denom: "ustake".to_string(),
        unbonding_period: 1000,
        exit_tax,
        validator: "valoper".to_string(),
        min_withdrawal: 10,
    }
}

fn coin(denom: &str, amount: u128) -> Coin {
    Coin { denom: denom.to_string(), amount }
}

fn fresh_engine(exit_tax: u128) -> Engine {
    instantiate(CONTRACT, invest_with_tax(exit_tax), None, None, &vec![]).unwrap()
}

/// Move the engine to issued=500, bonded=1000 through its own API: a
/// fallback-ratio bond of 500 followed by a reinvestment of 500 spare.
fn engine_500_issued_1000_bonded() -> Engine {
    let mut engine = fresh_engine(0);
    engine.bond(ALICE, &vec![coin("ustake", 500)], 0).unwrap();
    let (_, _) = engine.reinvest();
    engine.bond_all_tokens(CONTRACT, 500).unwrap();
    assert_eq!(engine.supply.issued, 500);
    assert_eq!(engine.supply.bonded, 1000);
    engine
}

#[test]
fn bond_uses_fallback_ratio_on_fresh_pool() {
    let mut engine = fresh_engine(0);
    let r = engine.bond(ALICE, &vec![coin("ustake", 100)], 0).unwrap();
    assert_eq!(r, Instruction::Delegate { validator: "valoper".to_string(), amount: 100 });
    assert_eq!(engine.supply.issued, 100);
    assert_eq!(engine.supply.bonded, 100);
    assert_eq!(engine.balance_of(ALICE), 100);
    assert_eq!(engine.token.total_supply, 100);
}

#[test]
fn bond_applies_the_exchange_rate() {
    let mut engine = engine_500_issued_1000_bonded();
    let r = engine.bond(BOB, &vec![coin("ustake", 100)], 1000).unwrap();
    assert_eq!(r, Instruction::Delegate { validator: "valoper".to_string(), amount: 100 });
    // 100 * 500 / 1000, floored
    assert_eq!(engine.balance_of(BOB), 50);
    assert_eq!(engine.supply.issued, 550);
    assert_eq!(engine.supply.bonded, 1100);
}

#[test]
fn bond_picks_the_bond_denom_from_the_payment() {
    let mut engine = fresh_engine(0);
    let funds = vec![coin("inj", 7), coin("ustake", 30), coin("ustake", 99)];
    engine.bond(ALICE, &funds, 0).unwrap();
    // the first matching coin counts
    assert_eq!(engine.balance_of(ALICE), 30);
}

#[test]
fn bond_without_matching_fund_is_empty_balance() {
    let mut engine = fresh_engine(0);
    let r = engine.bond(ALICE, &vec![coin("inj", 100)], 0);
    assert_eq!(r.unwrap_err(), ContractError::EmptyBalance);
}

#[test]
fn bond_detects_bonded_mismatch() {
    let mut engine = fresh_engine(0);
    engine.bond(ALICE, &vec![coin("ustake", 100)], 0).unwrap();
    let r = engine.bond(ALICE, &vec![coin("ustake", 100)], 99);
    assert_eq!(r.unwrap_err(), ContractError::BondedMismatch { stored: 100, queried: 99 });
    assert_eq!(engine.supply.issued, 100);
}

#[test]
fn unbond_detects_bonded_mismatch() {
    let mut engine = fresh_engine(0);
    engine.bond(ALICE, &vec![coin("ustake", 100)], 0).unwrap();
    let r = engine.unbond(ALICE, 50, 101, 0);
    assert_eq!(r.unwrap_err(), ContractError::BondedMismatch { stored: 100, queried: 101 });
}

#[test]
fn unbond_splits_tax_burn_and_remainder() {
    // five percent exit tax
    let mut engine = fresh_engine(FRACTION_UNIT / 20);
    engine.bond(ALICE, &vec![coin("ustake", 100)], 0).unwrap();
    let r = engine.unbond(ALICE, 100, 100, 7).unwrap();
    // tax = 5, remainder = 95, value = 95 * 100 / 100
    assert_eq!(r, Instruction::Undelegate { validator: "valoper".to_string(), amount: 95 });
    assert_eq!(engine.balance_of(ALICE), 0);
    assert_eq!(engine.balance_of(OWNER), 5);
    assert_eq!(engine.supply.issued, 5);
    assert_eq!(engine.supply.bonded, 5);
    assert_eq!(engine.supply.claims, 95);
    let entries = engine.claims_of(ALICE);
    assert_eq!(entries.len(), 1);
    assert_eq!(entries[0].amount, 95);
    assert_eq!(entries[0].release_time, 1007);
}

#[test]
fn unbond_rejects_small_amounts_and_short_balances() {
    let mut engine = fresh_engine(0);
    engine.bond(ALICE, &vec![coin("ustake", 100)], 0).unwrap();
    assert_eq!(
        engine.unbond(ALICE, 9, 100, 0).unwrap_err(),
        ContractError::UnbondTooSmall { min_withdrawal: 10 }
    );
    assert_eq!(
        engine.unbond(ALICE, 101, 100, 0).unwrap_err(),
        ContractError::InsufficientBalance
    );
    assert_eq!(engine.balance_of(ALICE), 100);
}

#[test]
fn unbond_of_converter_tokens_has_no_exchange_rate() {
    // tokens created by the bank converter are not backed by staking:
    // with nothing issued the rate is undefined and the call fails
    let mut engine = instantiate(
        CONTRACT,
        invest_with_tax(0),
        None,
        Some("inj".to_string()),
        &vec![],
    )
    .unwrap();
    engine.execute_bank_to_cw20(ALICE, coin("inj", 100)).unwrap();
    let r = engine.unbond(ALICE, 100, 0, 0);
    assert_eq!(r.unwrap_err(), ContractError::DivideByZero);
}

#[test]
fn claim_before_release_time_finds_nothing() {
    let mut engine = fresh_engine(0);
    engine.bond(ALICE, &vec![coin("ustake", 100)], 0).unwrap();
    engine.unbond(ALICE, 100, 100, 0).unwrap();
    // release time is 1000; try just before it
    let r = engine.claim(ALICE, 999, 1000);
    assert_eq!(r.unwrap_err(), ContractError::NothingToClaim);
    assert_eq!(engine.supply.claims, 100);
}

#[test]
fn claim_with_sufficient_custody_pays_the_matured_total() {
    let mut engine = fresh_engine(0);
    engine.bond(ALICE, &vec![coin("ustake", 100)], 0).unwrap();
    engine.unbond(ALICE, 100, 100, 0).unwrap();
    let r = engine.claim(ALICE, 1000, 500).unwrap();
    assert_eq!(
        r,
        Instruction::SendFunds { to: ALICE, denom: "ustake".to_string(), amount: 100 }
    );
    assert_eq!(engine.supply.claims, 0);
    assert!(engine.claims_of(ALICE).is_empty());
}

#[test]
fn claim_with_short_custody_pays_what_it_can_and_queues_the_rest() {
    let mut engine = fresh_engine(0);
    engine.bond(ALICE, &vec![coin("ustake", 100)], 0).unwrap();
    engine.unbond(ALICE, 100, 100, 0).unwrap();
    let r = engine.claim(ALICE, 1000, 60).unwrap();
    assert_eq!(
        r,
        Instruction::SendFunds { to: ALICE, denom: "ustake".to_string(), amount: 60 }
    );
    assert_eq!(engine.supply.claims, 40);
    let entries = engine.claims_of(ALICE);
    assert_eq!(entries.len(), 1);
    assert_eq!(entries[0].amount, 40);
    assert_eq!(entries[0].release_time, 1000);
    // a later claim settles the remainder
    let r2 = engine.claim(ALICE, 1001, 40).unwrap();
    assert_eq!(
        r2,
        Instruction::SendFunds { to: ALICE, denom: "ustake".to_string(), amount: 40 }
    );
    assert_eq!(engine.supply.claims, 0);
}

#[test]
fn claim_respects_the_custody_floor() {
    let mut engine = fresh_engine(0);
    let r = engine.claim(ALICE, 0, 9);
    assert_eq!(r.unwrap_err(), ContractError::BalanceTooSmall);
}

#[test]
fn claims_accumulate_in_order_per_owner() {
    let mut engine = fresh_engine(0);
    engine.bond(ALICE, &vec![coin("ustake", 100)], 0).unwrap();
    engine.unbond(ALICE, 30, 100, 0).unwrap();
    engine.unbond(ALICE, 20, 70, 5).unwrap();
    let entries = engine.claims_of(ALICE);
    assert_eq!(entries.len(), 2);
    assert_eq!((entries[0].amount, entries[0].release_time), (30, 1000));
    assert_eq!((entries[1].amount, entries[1].release_time), (20, 1005));
    assert!(engine.claims_of(BOB).is_empty());
}

#[test]
fn reinvest_chains_withdraw_and_self_call() {
    let mut engine = fresh_engine(0);
    let (first, second) = engine.reinvest();
    assert_eq!(first, Instruction::WithdrawRewards { validator: "valoper".to_string() });
    assert_eq!(second, Instruction::SelfCallBondAll);
    assert!(engine.reinvest_pending);
}

#[test]
fn bond_all_tokens_guards_the_self_call() {
    let mut engine = fresh_engine(0);
    // without a pending reinvestment even the contract itself is refused
    assert_eq!(
        engine.bond_all_tokens(CONTRACT, 100).unwrap_err(),
        ContractError::Unauthorized
    );
    engine.reinvest();
    assert_eq!(engine.bond_all_tokens(ALICE, 100).unwrap_err(), ContractError::Unauthorized);
}

#[test]
fn bond_all_tokens_bonds_the_spare_custody() {
    let mut engine = fresh_engine(0);
    engine.bond(ALICE, &vec![coin("ustake", 100)], 0).unwrap();
    engine.unbond(ALICE, 40, 100, 0).unwrap();
    // claims reserve is 40; custody holds 40 reserved + 75 spare
    engine.reinvest();
    let r = engine.bond_all_tokens(CONTRACT, 115).unwrap();
    assert_eq!(
        r,
        Some(Instruction::Delegate { validator: "valoper".to_string(), amount: 75 })
    );
    assert_eq!(engine.supply.bonded, 135);
    assert!(!engine.reinvest_pending);
}

#[test]
fn bond_all_tokens_skips_dust_without_failing() {
    let mut engine = fresh_engine(0);
    engine.bond(ALICE, &vec![coin("ustake", 100)], 0).unwrap();
    engine.unbond(ALICE, 40, 100, 0).unwrap();
    engine.reinvest();
    // spare custody of exactly the withdrawal floor is left alone
    let r = engine.bond_all_tokens(CONTRACT, 50).unwrap();
    assert_eq!(r, None);
    assert_eq!(engine.supply.bonded, 60);
    assert!(!engine.reinvest_pending);
}

#[test]
fn claim_leaves_other_owners_untouched() {
    let mut engine = fresh_engine(0);
    engine.bond(ALICE, &vec![coin("ustake", 100)], 0).unwrap();
    engine.bond(BOB, &vec![coin("ustake", 50)], 100).unwrap();
    engine.unbond(ALICE, 40, 150, 0).unwrap();
    engine.unbond(BOB, 30, 110, 0).unwrap();
    engine.claim(ALICE, 1000, 500).unwrap();
    // only the caller's entries are drained
    assert!(engine.claims_of(ALICE).is_empty());
    let bobs = engine.claims_of(BOB);
    assert_eq!(bobs.len(), 1);
    assert_eq!(bobs[0].amount, 30);
    assert_eq!(engine.supply.claims, 30);
}

#[test]
fn get_bonded_sums_delegations_of_one_denom() {
    let delegations = vec![coin("ustake", 10), coin("ustake", 20)];
    assert_eq!(get_bonded(&delegations).unwrap(), 30);
    assert_eq!(get_bonded(&vec![]).unwrap(), 0);
}

#[test]
fn get_bonded_rejects_mixed_denoms() {
    let delegations = vec![coin("ustake", 10), coin("inj", 20)];
    let r = get_bonded(&delegations);
    assert_eq!(
        r.unwrap_err(),
        ContractError::DifferentBondDenom {
            denom1: "ustake".to_string(),
            denom2: "inj".to_string()
        }
    );
}

#[test]
fn bond_respects_the_supply_cap() {
    let mint = Some(cw20_bank::state::MinterData { minter: CONTRACT, cap: Some(120) });
    let mut engine = instantiate(CONTRACT, invest_with_tax(0), mint, None, &vec![]).unwrap();
    engine.bond(ALICE, &vec![coin("ustake", 100)], 0).unwrap();
    let r = engine.bond(BOB, &vec![coin("ustake", 50)], 100);
    assert_eq!(r.unwrap_err(), ContractError::CannotExceedCap);
    assert_eq!(engine.token.total_supply, 100);
    assert_eq!(engine.supply.issued, 100);
}

#[test]
fn bond_twice_keeps_issuing() {
    let mut engine = fresh_engine(0);
    engine.bond(ALICE, &vec![coin("ustake", 100)], 0).unwrap();
    let issued_before = engine.supply.issued;
    engine.bond(BOB, &vec![coin("ustake", 50)], 100).unwrap();
    assert!(engine.supply.issued > issued_before);
    assert_eq!(engine.supply.issued, 150);
}

#[test]
fn unbond_decreases_issued_by_the_remainder() {
    // ten percent exit tax
    let mut engine = fresh_engine(FRACTION_UNIT / 10);
    engine.bond(ALICE, &vec![coin("ustake", 200)], 0).unwrap();
    engine.unbond(ALICE, 50, 200, 0).unwrap();
    // tax 5, remainder 45
    assert_eq!(engine.supply.issued, 155);
    assert_eq!(engine.balance_of(ALICE), 150);
    assert_eq!(engine.balance_of(OWNER), 5);
}
