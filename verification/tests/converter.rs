//! Converter, transfer and initialization behaviour.

use cw20_bank::contract::{instantiate, validate_accounts, Instruction};
use cw20_bank::error::ContractError;
use cw20_bank::state::{Coin, InvestmentInfo, MinterData, TokenInfo, FRACTION_UNIT};

const CONTRACT: u64 = 100;
const OWNER: u64 = 1;
const ALICE: u64 = 2;
const BOB: u64 = 3;

fn invest() -> InvestmentInfo {
    InvestmentInfo {
        owner: OWNER,
        bond_denom: "ustake".to_string(),
        unbonding_period: 1000,
        exit_tax: 0,
        validator: "valoper".to_string(),
        min_withdrawal: 10,
    }
}

fn coin(denom: &str, amount: u128) -> Coin {
    Coin { denom: denom.to_string(), amount }
}

#[test]
fn instantiate_records_initial_balances() {
    let accounts = vec![(ALICE, 500u128), (BOB, 70u128)];
    let engine = instantiate(CONTRACT, invest(), None, Some("inj".to_string()), &accounts).unwrap();
    assert_eq!(engine.token.total_supply, 570);
    assert_eq!(engine.balance_of(ALICE), 500);
    assert_eq!(engine.balance_of(BOB), 70);
    assert_eq!(engine.balance_of(OWNER), 0);
    assert_eq!(engine.supply.issued, 0);
    assert_eq!(engine.supply.bonded, 0);
    assert_eq!(engine.supply.claims, 0);
}

#[test]
fn instantiate_rejects_duplicate_accounts() {
    let accounts = vec![(ALICE, 1u128), (ALICE, 2u128)];
    let r = instantiate(CONTRACT, invest(), None, None, &accounts);
    assert_eq!(r.unwrap_err(), ContractError::DuplicateInitialBalanceAddresses);
}

#[test]
fn instantiate_rejects_supply_over_cap() {
    let mint = Some(MinterData { minter: CONTRACT, cap: Some(100) });
    let accounts = vec![(ALICE, 101u128)];
    let r = instantiate(CONTRACT, invest(), mint, None, &accounts);
    assert_eq!(r.unwrap_err(), ContractError::CannotExceedCap);
}

#[test]
fn instantiate_rejects_initial_supply_overflow() {
    let accounts = vec![(ALICE, u128::MAX), (BOB, 1u128)];
    let r = instantiate(CONTRACT, invest(), None, None, &accounts);
    assert_eq!(r.unwrap_err(), ContractError::Overflow);
}

#[test]
fn validate_accounts_accepts_distinct_and_rejects_duplicates() {
    assert!(validate_accounts(&vec![(1u64, 5u128), (2u64, 5u128)]).is_ok());
    let r = validate_accounts(&vec![(7u64, 5u128), (7u64, 9u128)]);
    assert_eq!(r.unwrap_err(), ContractError::DuplicateInitialBalanceAddresses);
}

#[test]
fn get_cap_reads_the_minter_cap() {
    let token = TokenInfo {
        total_supply: 0,
        mint: Some(MinterData { minter: CONTRACT, cap: Some(42) }),
        bank_denom: None,
    };
    assert_eq!(token.get_cap(), Some(42));
    let uncapped = TokenInfo { total_supply: 0, mint: None, bank_denom: None };
    assert_eq!(uncapped.get_cap(), None);
}

#[test]
fn bank_to_cw20_mints_at_parity() {
    let accounts = vec![(ALICE, 500u128)];
    let mut engine =
        instantiate(CONTRACT, invest(), None, Some("inj".to_string()), &accounts).unwrap();
    let r = engine.execute_bank_to_cw20(ALICE, coin("inj", 77)).unwrap();
    assert_eq!(r, Instruction::BurnBankTokens { denom: "inj".to_string(), amount: 77 });
    assert_eq!(engine.balance_of(ALICE), 577);
    assert_eq!(engine.token.total_supply, 577);
    // the bonding engine's own counters are untouched
    assert_eq!(engine.supply.issued, 0);
}

#[test]
fn bank_to_cw20_rejects_wrong_denom_and_mutates_nothing() {
    let accounts = vec![(ALICE, 500u128)];
    let mut engine =
        instantiate(CONTRACT, invest(), None, Some("inj".to_string()), &accounts).unwrap();
    let r = engine.execute_bank_to_cw20(ALICE, coin("uatom", 77));
    assert_eq!(r.unwrap_err(), ContractError::InvalidBankDenom);
    assert_eq!(engine.balance_of(ALICE), 500);
    assert_eq!(engine.token.total_supply, 500);
}

#[test]
fn bank_to_cw20_requires_a_configured_denom() {
    let mut engine = instantiate(CONTRACT, invest(), None, None, &vec![]).unwrap();
    let r = engine.execute_bank_to_cw20(ALICE, coin("inj", 5));
    assert_eq!(r.unwrap_err(), ContractError::BankDenomNotSet);
}

#[test]
fn bank_to_cw20_rejects_zero_amount() {
    let mut engine =
        instantiate(CONTRACT, invest(), None, Some("inj".to_string()), &vec![]).unwrap();
    let r = engine.execute_bank_to_cw20(ALICE, coin("inj", 0));
    assert_eq!(r.unwrap_err(), ContractError::InvalidZeroAmount);
}

#[test]
fn bank_to_cw20_enforces_the_cap() {
    let mint = Some(MinterData { minter: CONTRACT, cap: Some(600) });
    let accounts = vec![(ALICE, 500u128)];
    let mut engine =
        instantiate(CONTRACT, invest(), mint, Some("inj".to_string()), &accounts).unwrap();
    let r = engine.execute_bank_to_cw20(ALICE, coin("inj", 101));
    assert_eq!(r.unwrap_err(), ContractError::CannotExceedCap);
    assert_eq!(engine.token.total_supply, 500);
    assert!(engine.execute_bank_to_cw20(ALICE, coin("inj", 100)).is_ok());
    assert_eq!(engine.token.total_supply, 600);
}

#[test]
fn cw20_to_bank_burns_and_pays_out() {
    let accounts = vec![(ALICE, 500u128)];
    let mut engine =
        instantiate(CONTRACT, invest(), None, Some("inj".to_string()), &accounts).unwrap();
    let r = engine.execute_cw20_to_bank(ALICE, 200).unwrap();
    assert_eq!(
        r,
        Instruction::MintBankTokens { to: ALICE, denom: "inj".to_string(), amount: 200 }
    );
    assert_eq!(engine.balance_of(ALICE), 300);
    assert_eq!(engine.token.total_supply, 300);
}

#[test]
fn cw20_to_bank_rejects_zero_and_insufficient_balance() {
    let accounts = vec![(ALICE, 50u128)];
    let mut engine =
        instantiate(CONTRACT, invest(), None, Some("inj".to_string()), &accounts).unwrap();
    assert_eq!(
        engine.execute_cw20_to_bank(ALICE, 0).unwrap_err(),
        ContractError::InvalidZeroAmount
    );
    assert_eq!(
        engine.execute_cw20_to_bank(ALICE, 51).unwrap_err(),
        ContractError::InsufficientBalance
    );
    assert_eq!(engine.balance_of(ALICE), 50);
}

#[test]
fn cw20_to_bank_requires_a_configured_denom() {
    let accounts = vec![(ALICE, 50u128)];
    let mut engine = instantiate(CONTRACT, invest(), None, None, &accounts).unwrap();
    assert_eq!(
        engine.execute_cw20_to_bank(ALICE, 10).unwrap_err(),
        ContractError::BankDenomNotSet
    );
}

#[test]
fn convert_round_trip_restores_ledger_and_supply() {
    let accounts = vec![(ALICE, 500u128), (BOB, 20u128)];
    let mut engine =
        instantiate(CONTRACT, invest(), None, Some("inj".to_string()), &accounts).unwrap();
    engine.execute_bank_to_cw20(ALICE, coin("inj", 77)).unwrap();
    engine.execute_cw20_to_bank(ALICE, 77).unwrap();
    assert_eq!(engine.balance_of(ALICE), 500);
    assert_eq!(engine.balance_of(BOB), 20);
    assert_eq!(engine.token.total_supply, 520);
}

#[test]
fn transfer_moves_tokens_and_keeps_the_supply() {
    let accounts = vec![(ALICE, 500u128)];
    let mut engine = instantiate(CONTRACT, invest(), None, None, &accounts).unwrap();
    engine.execute_transfer_wrapper(ALICE, BOB, 120).unwrap();
    assert_eq!(engine.balance_of(ALICE), 380);
    assert_eq!(engine.balance_of(BOB), 120);
    assert_eq!(engine.token.total_supply, 500);
}

#[test]
fn transfer_rejects_zero_and_insufficient_balance() {
    let accounts = vec![(ALICE, 10u128)];
    let mut engine = instantiate(CONTRACT, invest(), None, None, &accounts).unwrap();
    assert_eq!(
        engine.execute_transfer_wrapper(ALICE, BOB, 0).unwrap_err(),
        ContractError::InvalidZeroAmount
    );
    assert_eq!(
        engine.execute_transfer_wrapper(ALICE, BOB, 11).unwrap_err(),
        ContractError::InsufficientBalance
    );
    assert_eq!(engine.balance_of(ALICE), 10);
    assert_eq!(engine.balance_of(BOB), 0);
}

#[test]
fn exit_tax_is_a_fraction_of_unit() {
    // five percent of the fixed-point unit
    assert_eq!(FRACTION_UNIT / 20, 50_000_000_000_000_000);
}
