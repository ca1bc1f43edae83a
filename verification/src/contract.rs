//! The engine context: the bonding state machine, the bank converter and
//! the transfer operation, over one explicit state object.
//!
//! Every operation either succeeds, committing all of its bookkeeping at
//! once and handing back the outbound settlement instruction it wants
//! dispatched, or fails and leaves the state exactly as it found it.
//!
//! Total-supply bookkeeping: `TokenInfo::total_supply` counts every
//! derivative token outstanding, whatever created it, and always equals
//! the sum over the ledger; `Supply::issued` counts only the tokens
//! issued by the bonding engine against the staking position, so tokens
//! created by the bank converter never move it.

use vstd::arithmetic::div_mod::{
    lemma_div_is_ordered, lemma_div_multiples_vanish, lemma_div_pos_is_pos,
};
use vstd::arithmetic::mul::{lemma_mul_inequality, lemma_mul_nonnegative};
use vstd::prelude::*;

use crate::arith::checked_mul_ratio;
use crate::claims::{
    claim_total_of, drain_rest, lemma_claim_total_push, lemma_drain_matured,
    lemma_drain_paid_is_min, lemma_drain_total, lemma_matured_le_total, lemma_matured_nonneg,
    matured_of, ClaimEntry, ClaimQueue,
};
use crate::error::ContractError;
use crate::ledger::{bal_of, lemma_bal_le_sum, lemma_sum_nonneg, sum_of, unique_keys, Ledger};
use crate::state::{Coin, InvestmentInfo, MinterData, Supply, TokenInfo, FRACTION_UNIT};

verus! {

/// An outbound settlement instruction.  Instructions are queued effects:
/// the host dispatches them, in order, only after the state mutations of
/// the invocation that produced them are committed.
#[derive(Clone, Debug, PartialEq)]
pub enum Instruction {
    /// Delegate `amount` of the bond denomination to the validator.
    Delegate { validator: String, amount: u128 },
    /// Undelegate `amount` of the bond denomination from the validator.
    Undelegate { validator: String, amount: u128 },
    /// Pay `amount` of `denom` out of contract custody to account `to`.
    SendFunds { to: u64, denom: String, amount: u128 },
    /// Withdraw the staking rewards accrued with the validator into
    /// contract custody.
    WithdrawRewards { validator: String },
    /// Self-directed follow-up that bonds all spare custody; guaranteed
    /// to run only after the reward withdrawal queued ahead of it.
    SelfCallBondAll,
    /// Mint `amount` of the bank denomination `denom` to account `to`.
    MintBankTokens { to: u64, denom: String, amount: u128 },
    /// Burn `amount` of the bank denomination `denom` from contract
    /// custody.
    BurnBankTokens { denom: String, amount: u128 },
}

/// Derivative tokens minted for a payment of `payment` when `issued`
/// tokens are outstanding against `bonded` staked tokens: the ratio is
/// applied by multiplying first, so no precision is lost to an early
/// division, and a fresh or empty pool falls back to a 1:1 ratio.
pub open spec fn mint_amount(payment: u128, issued: u128, bonded: u128) -> int {
    if issued == 0 || bonded == 0 {
        payment as int
    } else {
        (payment * issued) / (bonded as int)
    }
}

/// The owner's cut of an unbonded amount, floored.
pub open spec fn tax_amount(amount: u128, exit_tax: u128) -> int {
    (amount * exit_tax) / (FRACTION_UNIT as int)
}

/// Amount of the first coin of denomination `denom` in an attached
/// payment, if any.
pub open spec fn find_payment(s: Seq<Coin>, denom: Seq<char>) -> Option<u128>
    decreases s.len(),
{
    if s.len() == 0 {
        None
    } else if s[0].denom@ == denom {
        Some(s[0].amount)
    } else {
        find_payment(s.drop_first(), denom)
    }
}

/// Check that no two initial balances name the same account.
pub fn validate_accounts(accounts: &Vec<(u64, u128)>) -> (r: Result<(), ContractError>)
    ensures
        r is Ok <==> unique_keys(accounts@),
        r is Err ==> r == Err::<(), ContractError>(ContractError::DuplicateInitialBalanceAddresses),
{
    let n = accounts.len();
    for i in 0..n
        invariant
            n == accounts@.len(),
            forall|p: int, q: int|
                #![trigger accounts@[p].0, accounts@[q].0]
                0 <= p < q < i ==> accounts@[p].0 != accounts@[q].0,
    {
        for j in 0..i
            invariant
                n == accounts@.len(),
                i < n,
                forall|p: int, q: int|
                    #![trigger accounts@[p].0, accounts@[q].0]
                    0 <= p < q < i ==> accounts@[p].0 != accounts@[q].0,
                forall|q: int| 0 <= q < j ==> accounts@[q].0 != accounts@[i as int].0,
        {
            if accounts[j].0 == accounts[i].0 {
                return Err(ContractError::DuplicateInitialBalanceAddresses);
            }
        }
    }
    Ok(())
}

/// Build the initial ledger and the initial total supply.
pub fn create_accounts(accounts: &Vec<(u64, u128)>) -> (r: Result<(Ledger, u128), ContractError>)
    ensures
        r matches Ok(p) ==> p.0.entries@ == accounts@ && p.0.wf() && p.1 as int == sum_of(
            accounts@,
        ),
        r is Ok <==> unique_keys(accounts@) && sum_of(accounts@) <= u128::MAX,
        !unique_keys(accounts@) <==> r == Err::<(Ledger, u128), ContractError>(
            ContractError::DuplicateInitialBalanceAddresses,
        ),
        unique_keys(accounts@) && sum_of(accounts@) > u128::MAX <==> r == Err::<
            (Ledger, u128),
            ContractError,
        >(ContractError::Overflow),
{
    match validate_accounts(accounts) {
        Err(e) => {
            return Err(e);
        },
        Ok(()) => {},
    }
    let ghost s = accounts@;
    let n = accounts.len();
    let mut entries: Vec<(u64, u128)> = Vec::new();
    let mut total: u128 = 0;
    proof {
        assert(s.skip(0) =~= s);
    }
    for i in 0..n
        invariant
            n == s.len(),
            s == accounts@,
            unique_keys(s),
            entries@ =~= s.subrange(0, i as int),
            total + sum_of(s.skip(i as int)) == sum_of(s),
    {
        proof {
            assert(s.skip(i as int)[0] == s[i as int]);
            assert(s.skip(i as int).drop_first() =~= s.skip(i as int + 1));
            lemma_sum_nonneg(s.skip(i as int + 1));
        }
        let (a, amt) = accounts[i];
        if amt > u128::MAX - total {
            return Err(ContractError::Overflow);
        }
        total = total + amt;
        entries.push((a, amt));
        proof {
            assert(entries@ =~= s.subrange(0, i as int + 1));
        }
    }
    proof {
        assert(s.skip(n as int) =~= Seq::<(u64, u128)>::empty());
        assert(s.subrange(0, n as int) =~= s);
    }
    Ok((Ledger { entries }, total))
}

/// The engine context, constructed once at initialization and threaded
/// through every operation.
#[derive(Debug)]
pub struct Engine {
    /// The contract's own account: the only caller that the self-call
    /// guard of [`Engine::bond_all_tokens`] accepts.
    pub contract: u64,
    /// Immutable staking parameters.
    pub invest: InvestmentInfo,
    /// Token bookkeeping: total supply, optional cap, bank denomination.
    pub token: TokenInfo,
    /// The reconciliation cache against the external staking subsystem.
    pub supply: Supply,
    /// The derivative-token balance ledger.
    pub ledger: Ledger,
    /// Pending unbond entitlements.
    pub queue: ClaimQueue,
    /// Set by [`Engine::reinvest`], consumed by the follow-up
    /// [`Engine::bond_all_tokens`].
    pub reinvest_pending: bool,
}

impl Engine {
    /// The engine's internal consistency: the ledger is a map, its sum
    /// is the recorded total supply, the supply cap is respected, the
    /// claims reserve equals what the queue owes, and the exit tax is a
    /// fraction.
    pub open spec fn wf(self) -> bool {
        &&& self.ledger.wf()
        &&& self.ledger.total() == self.token.total_supply
        &&& match self.token.spec_cap() {
            Some(c) => self.token.total_supply <= c,
            None => true,
        }
        &&& claim_total_of(self.queue.entries@) == self.supply.claims
        &&& self.invest.wf()
    }

    /// Ledger balance of account `a`.
    pub open spec fn bal(self, a: u64) -> u128 {
        self.ledger.bal(a)
    }

    /// Read the ledger balance of account `a`.
    pub fn balance_of(&self, a: u64) -> (r: u128)
        ensures
            r == self.bal(a),
    {
        self.ledger.read(a)
    }

    /// Enumerate the pending and matured claim entries of `owner`.
    pub fn claims_of(&self, owner: u64) -> (r: Vec<ClaimEntry>)
        ensures
            r@ == crate::claims::owner_entries(self.queue.entries@, owner),
    {
        self.queue.claims_of(owner)
    }

    /// Swap derivative tokens for the settlement asset at parity: burn
    /// `amount` from the caller's ledger balance and the total supply,
    /// and instruct the host to hand the caller the same amount of the
    /// bank denomination out of contract custody.
    pub fn execute_cw20_to_bank(&mut self, caller: u64, amount: u128) -> (r: Result<
        Instruction,
        ContractError,
    >)
        requires
            old(self).wf(),
        ensures
            final(self).wf(),
            r is Err ==> *final(self) == *old(self),
            amount == 0 <==> r == Err::<Instruction, ContractError>(
                ContractError::InvalidZeroAmount,
            ),
            amount > 0 && old(self).bal(caller) < amount <==> r == Err::<
                Instruction,
                ContractError,
            >(ContractError::InsufficientBalance),
            amount > 0 && old(self).bal(caller) >= amount && old(self).token.bank_denom is None
                <==> r == Err::<Instruction, ContractError>(ContractError::BankDenomNotSet),
            r is Ok <==> amount > 0 && old(self).bal(caller) >= amount && old(
                self,
            ).token.bank_denom is Some,
            r is Ok ==> {
                &&& final(self).token.total_supply == old(self).token.total_supply - amount
                &&& final(self).bal(caller) == old(self).bal(caller) - amount
                &&& (forall|b: u64| b != caller ==> final(self).bal(b) == old(self).bal(b))
                &&& final(self).supply == old(self).supply
                &&& final(self).queue.entries@ == old(self).queue.entries@
                &&& final(self).invest == old(self).invest
                &&& final(self).token.mint == old(self).token.mint
                &&& final(self).token.bank_denom == old(self).token.bank_denom
                &&& final(self).contract == old(self).contract
                &&& final(self).reinvest_pending == old(self).reinvest_pending
                &&& (old(self).token.bank_denom matches Some(d) ==> r == Ok::<
                    Instruction,
                    ContractError,
                >(Instruction::MintBankTokens { to: caller, denom: d, amount }))
            },
    {
        if amount == 0 {
            return Err(ContractError::InvalidZeroAmount);
        }
        let balance = self.ledger.read(caller);
        if balance < amount {
            return Err(ContractError::InsufficientBalance);
        }
        let denom = match &self.token.bank_denom {
            None => {
                return Err(ContractError::BankDenomNotSet);
            },
            Some(d) => d.clone(),
        };
        proof {
            lemma_bal_le_sum(self.ledger.entries@, caller);
        }
        self.ledger.debit(caller, amount);
        self.token.total_supply = self.token.total_supply - amount;
        Ok(Instruction::MintBankTokens { to: caller, denom, amount })
    }

    /// Swap the settlement asset for derivative tokens at parity: take
    /// the received coin of the bank denomination into custody (where
    /// the host burns it), and mint the caller the same amount of
    /// derivative tokens, subject to the optional supply cap.  No
    /// staking is involved.
    pub fn execute_bank_to_cw20(&mut self, caller: u64, coin: Coin) -> (r: Result<
        Instruction,
        ContractError,
    >)
        requires
            old(self).wf(),
        ensures
            final(self).wf(),
            r is Err ==> *final(self) == *old(self),
            old(self).token.bank_denom is None <==> r == Err::<Instruction, ContractError>(
                ContractError::BankDenomNotSet,
            ),
            (old(self).token.bank_denom matches Some(d) && d@ != coin.denom@) <==> r == Err::<
                Instruction,
                ContractError,
            >(ContractError::InvalidBankDenom),
            (old(self).token.bank_denom matches Some(d) && d@ == coin.denom@ && coin.amount == 0)
                <==> r == Err::<Instruction, ContractError>(ContractError::InvalidZeroAmount),
            (old(self).token.bank_denom matches Some(d) && d@ == coin.denom@ && coin.amount > 0
                && old(self).token.total_supply + coin.amount > u128::MAX) <==> r == Err::<
                Instruction,
                ContractError,
            >(ContractError::Overflow),
            (old(self).token.bank_denom matches Some(d) && d@ == coin.denom@ && coin.amount > 0
                && old(self).token.total_supply + coin.amount <= u128::MAX && (match old(
                self,
            ).token.spec_cap() {
                Some(c) => old(self).token.total_supply + coin.amount > c,
                None => false,
            })) <==> r == Err::<Instruction, ContractError>(ContractError::CannotExceedCap),
            r is Ok <==> (old(self).token.bank_denom matches Some(d) && d@ == coin.denom@
                && coin.amount > 0 && old(self).token.total_supply + coin.amount <= u128::MAX
                && (match old(self).token.spec_cap() {
                Some(c) => old(self).token.total_supply + coin.amount <= c,
                None => true,
            })),
            r is Ok ==> {
                &&& final(self).token.total_supply == old(self).token.total_supply + coin.amount
                &&& final(self).bal(caller) == old(self).bal(caller) + coin.amount
                &&& (forall|b: u64| b != caller ==> final(self).bal(b) == old(self).bal(b))
                &&& final(self).supply == old(self).supply
                &&& final(self).queue.entries@ == old(self).queue.entries@
                &&& final(self).invest == old(self).invest
                &&& final(self).token.mint == old(self).token.mint
                &&& final(self).token.bank_denom == old(self).token.bank_denom
                &&& final(self).contract == old(self).contract
                &&& final(self).reinvest_pending == old(self).reinvest_pending
                &&& (old(self).token.bank_denom matches Some(d) ==> r == Ok::<
                    Instruction,
                    ContractError,
                >(Instruction::BurnBankTokens { denom: d, amount: coin.amount }))
            },
    {
        let denom = match &self.token.bank_denom {
            None => {
                return Err(ContractError::BankDenomNotSet);
            },
            Some(d) => d.clone(),
        };
        if denom != coin.denom {
            return Err(ContractError::InvalidBankDenom);
        }
        if coin.amount == 0 {
            return Err(ContractError::InvalidZeroAmount);
        }
        if coin.amount > u128::MAX - self.token.total_supply {
            return Err(ContractError::Overflow);
        }
        let new_total = self.token.total_supply + coin.amount;
        match self.token.get_cap() {
            Some(limit) => {
                if new_total > limit {
                    return Err(ContractError::CannotExceedCap);
                }
            },
            None => {},
        }
        proof {
            lemma_bal_le_sum(self.ledger.entries@, caller);
        }
        self.token.total_supply = new_total;
        self.ledger.credit(caller, coin.amount);
        Ok(Instruction::BurnBankTokens { denom, amount: coin.amount })
    }

    /// Move `amount` of derivative tokens from the caller to the
    /// recipient; the total supply is untouched.
    pub fn execute_transfer_wrapper(&mut self, caller: u64, recipient: u64, amount: u128) -> (r:
        Result<(), ContractError>)
        requires
            old(self).wf(),
        ensures
            final(self).wf(),
            r is Err ==> *final(self) == *old(self),
            amount == 0 <==> r == Err::<(), ContractError>(ContractError::InvalidZeroAmount),
            amount > 0 && old(self).bal(caller) < amount <==> r == Err::<(), ContractError>(
                ContractError::InsufficientBalance,
            ),
            r is Ok <==> amount > 0 && old(self).bal(caller) >= amount,
            r is Ok ==> {
                &&& final(self).bal(caller) == if caller == recipient {
                    old(self).bal(caller)
                } else {
                    (old(self).bal(caller) - amount) as u128
                }
                &&& final(self).bal(recipient) == if caller == recipient {
                    old(self).bal(recipient)
                } else {
                    (old(self).bal(recipient) + amount) as u128
                }
                &&& (forall|b: u64|
                    b != caller && b != recipient ==> final(self).bal(b) == old(self).bal(b))
                &&& final(self).token == old(self).token
                &&& final(self).supply == old(self).supply
                &&& final(self).queue.entries@ == old(self).queue.entries@
                &&& final(self).invest == old(self).invest
                &&& final(self).contract == old(self).contract
                &&& final(self).reinvest_pending == old(self).reinvest_pending
            },
    {
        if amount == 0 {
            return Err(ContractError::InvalidZeroAmount);
        }
        let balance = self.ledger.read(caller);
        if balance < amount {
            return Err(ContractError::InsufficientBalance);
        }
        proof {
            lemma_bal_le_sum(self.ledger.entries@, caller);
        }
        self.ledger.debit(caller, amount);
        proof {
            lemma_bal_le_sum(self.ledger.entries@, recipient);
            lemma_sum_nonneg(self.ledger.entries@);
        }
        self.ledger.credit(recipient, amount);
        Ok(())
    }

    /// Bond the coin of the bond denomination found in the attached
    /// payment: after checking the reconciliation invariant against the
    /// externally observed bonded amount, mint the caller derivative
    /// tokens at the current exchange rate (1:1 when nothing is issued
    /// or bonded yet) and instruct the host to delegate the payment.
    pub fn bond(&mut self, caller: u64, funds: &Vec<Coin>, observed_bonded: u128) -> (r: Result<
        Instruction,
        ContractError,
    >)
        requires
            old(self).wf(),
        ensures
            final(self).wf(),
            r is Err ==> *final(self) == *old(self),
            find_payment(funds@, old(self).invest.bond_denom@) is None <==> r == Err::<
                Instruction,
                ContractError,
            >(ContractError::EmptyBalance),
            (find_payment(funds@, old(self).invest.bond_denom@) is Some && observed_bonded != old(
                self,
            ).supply.bonded) <==> r == Err::<Instruction, ContractError>(
                ContractError::BondedMismatch {
                    stored: old(self).supply.bonded,
                    queried: observed_bonded,
                },
            ),
            (find_payment(funds@, old(self).invest.bond_denom@) matches Some(p) && observed_bonded
                == old(self).supply.bonded && old(self).bond_overflows(p, observed_bonded)) <==> r
                == Err::<Instruction, ContractError>(ContractError::Overflow),
            (find_payment(funds@, old(self).invest.bond_denom@) matches Some(p) && observed_bonded
                == old(self).supply.bonded && !old(self).bond_overflows(p, observed_bonded)
                && (match old(self).token.spec_cap() {
                Some(c) => old(self).token.total_supply + mint_amount(
                    p,
                    old(self).supply.issued,
                    observed_bonded,
                ) > c,
                None => false,
            })) <==> r == Err::<Instruction, ContractError>(ContractError::CannotExceedCap),
            r is Ok <==> (find_payment(funds@, old(self).invest.bond_denom@) matches Some(p)
                && observed_bonded == old(self).supply.bonded && !old(self).bond_overflows(
                p,
                observed_bonded,
            ) && (match old(self).token.spec_cap() {
                Some(c) => old(self).token.total_supply + mint_amount(
                    p,
                    old(self).supply.issued,
                    observed_bonded,
                ) <= c,
                None => true,
            })),
            r is Ok ==> (find_payment(funds@, old(self).invest.bond_denom@) matches Some(p) && {
                let minted = mint_amount(p, old(self).supply.issued, observed_bonded);
                &&& final(self).supply.issued == old(self).supply.issued + minted
                &&& final(self).supply.bonded == old(self).supply.bonded + p
                &&& final(self).supply.claims == old(self).supply.claims
                &&& final(self).token.total_supply == old(self).token.total_supply + minted
                &&& final(self).bal(caller) == old(self).bal(caller) + minted
                &&& (forall|b: u64| b != caller ==> final(self).bal(b) == old(self).bal(b))
                &&& final(self).queue.entries@ == old(self).queue.entries@
                &&& final(self).invest == old(self).invest
                &&& final(self).token.mint == old(self).token.mint
                &&& final(self).token.bank_denom == old(self).token.bank_denom
                &&& final(self).contract == old(self).contract
                &&& final(self).reinvest_pending == old(self).reinvest_pending
                &&& r == Ok::<Instruction, ContractError>(
                    Instruction::Delegate { validator: old(self).invest.validator, amount: p },
                )
            }),
    {
        let payment_opt = find_bond_payment(funds, &self.invest.bond_denom);
        let payment = match payment_opt {
            None => {
                return Err(ContractError::EmptyBalance);
            },
            Some(p) => p,
        };
        if observed_bonded != self.supply.bonded {
            return Err(
                ContractError::BondedMismatch {
                    stored: self.supply.bonded,
                    queried: observed_bonded,
                },
            );
        }
        let to_mint: u128 = if self.supply.issued == 0 || observed_bonded == 0 {
            payment
        } else {
            proof {
                lemma_mul_nonnegative(payment as int, self.supply.issued as int);
                lemma_div_pos_is_pos(payment * self.supply.issued, observed_bonded as int);
            }
            match checked_mul_ratio(payment, self.supply.issued, observed_bonded) {
                None => {
                    return Err(ContractError::Overflow);
                },
                Some(m) => m,
            }
        };
        if payment > u128::MAX - observed_bonded {
            return Err(ContractError::Overflow);
        }
        let new_bonded = observed_bonded + payment;
        if to_mint > u128::MAX - self.supply.issued {
            return Err(ContractError::Overflow);
        }
        let new_issued = self.supply.issued + to_mint;
        if to_mint > u128::MAX - self.token.total_supply {
            return Err(ContractError::Overflow);
        }
        let new_total = self.token.total_supply + to_mint;
        match self.token.get_cap() {
            Some(limit) => {
                if new_total > limit {
                    return Err(ContractError::CannotExceedCap);
                }
            },
            None => {},
        }
        proof {
            lemma_bal_le_sum(self.ledger.entries@, caller);
        }
        self.supply.bonded = new_bonded;
        self.supply.issued = new_issued;
        self.token.total_supply = new_total;
        self.ledger.credit(caller, to_mint);
        Ok(Instruction::Delegate { validator: self.invest.validator.clone(), amount: payment })
    }

    /// Whether bonding a payment of `p` against the observed bonded
    /// amount would push a counter past the 128-bit range.
    pub open spec fn bond_overflows(self, p: u128, observed_bonded: u128) -> bool {
        let minted = mint_amount(p, self.supply.issued, observed_bonded);
        ||| minted > u128::MAX
        ||| observed_bonded + p > u128::MAX
        ||| self.supply.issued + minted > u128::MAX
        ||| self.token.total_supply + minted > u128::MAX
    }

    /// The native value paid out for burning `remainder` derivative
    /// tokens, at the current exchange rate, floored.
    pub open spec fn unbond_value_of(self, remainder: int) -> int {
        (remainder * self.supply.bonded) / (self.supply.issued as int)
    }

    /// Whether unbonding `amount` would break a counter: the burned
    /// remainder cannot exceed what the engine issued, and the claims
    /// reserve must stay within the 128-bit range.
    pub open spec fn unbond_overflows(self, amount: u128) -> bool {
        let rem = amount - tax_amount(amount, self.invest.exit_tax);
        ||| rem > self.supply.issued
        ||| self.supply.claims + self.unbond_value_of(rem) > u128::MAX
    }

    /// Unbond `amount` derivative tokens: burn them from the caller,
    /// mint the exit tax to the owner, re-check the reconciliation
    /// invariant, convert the remainder to its native value at the
    /// current exchange rate, move that value from the bonded cache to
    /// the claims reserve, queue an entitlement that matures after the
    /// unbonding period, and instruct the host to undelegate it.
    pub fn unbond(&mut self, caller: u64, amount: u128, observed_bonded: u128, now: u64) -> (r:
        Result<Instruction, ContractError>)
        requires
            old(self).wf(),
            now + old(self).invest.unbonding_period <= u64::MAX,
        ensures
            final(self).wf(),
            r is Err ==> *final(self) == *old(self),
            amount < old(self).invest.min_withdrawal <==> r == Err::<Instruction, ContractError>(
                ContractError::UnbondTooSmall {
                    min_withdrawal: old(self).invest.min_withdrawal,
                },
            ),
            (amount >= old(self).invest.min_withdrawal && old(self).bal(caller) < amount) <==> r
                == Err::<Instruction, ContractError>(ContractError::InsufficientBalance),
            (amount >= old(self).invest.min_withdrawal && old(self).bal(caller) >= amount
                && observed_bonded != old(self).supply.bonded) <==> r == Err::<
                Instruction,
                ContractError,
            >(
                ContractError::BondedMismatch {
                    stored: old(self).supply.bonded,
                    queried: observed_bonded,
                },
            ),
            (amount >= old(self).invest.min_withdrawal && old(self).bal(caller) >= amount
                && observed_bonded == old(self).supply.bonded && old(self).supply.issued == 0)
                <==> r == Err::<Instruction, ContractError>(ContractError::DivideByZero),
            (amount >= old(self).invest.min_withdrawal && old(self).bal(caller) >= amount
                && observed_bonded == old(self).supply.bonded && old(self).supply.issued != 0
                && old(self).unbond_overflows(amount)) <==> r == Err::<Instruction, ContractError>(
                ContractError::Overflow,
            ),
            r is Ok <==> (amount >= old(self).invest.min_withdrawal && old(self).bal(caller)
                >= amount && observed_bonded == old(self).supply.bonded && old(self).supply.issued
                != 0 && !old(self).unbond_overflows(amount)),
            r is Ok ==> {
                let tax = tax_amount(amount, old(self).invest.exit_tax);
                let rem = amount - tax;
                let ubv = old(self).unbond_value_of(rem);
                let owner = old(self).invest.owner;
                &&& final(self).supply.issued == old(self).supply.issued - rem
                &&& final(self).supply.bonded == old(self).supply.bonded - ubv
                &&& final(self).supply.claims == old(self).supply.claims + ubv
                &&& final(self).token.total_supply == old(self).token.total_supply - rem
                &&& final(self).bal(caller) == (if caller == owner {
                    (old(self).bal(caller) - amount + tax) as u128
                } else {
                    (old(self).bal(caller) - amount) as u128
                })
                &&& (caller != owner ==> final(self).bal(owner) == old(self).bal(owner) + tax)
                &&& (forall|b: u64|
                    b != caller && b != owner ==> final(self).bal(b) == old(self).bal(b))
                &&& final(self).queue.entries@ == old(self).queue.entries@.push(
                    ClaimEntry {
                        owner: caller,
                        amount: ubv as u128,
                        release_time: (now + old(self).invest.unbonding_period) as u64,
                    },
                )
                &&& final(self).invest == old(self).invest
                &&& final(self).token.mint == old(self).token.mint
                &&& final(self).token.bank_denom == old(self).token.bank_denom
                &&& final(self).contract == old(self).contract
                &&& final(self).reinvest_pending == old(self).reinvest_pending
                &&& r == Ok::<Instruction, ContractError>(
                    Instruction::Undelegate {
                        validator: old(self).invest.validator,
                        amount: ubv as u128,
                    },
                )
            },
    {
        if amount < self.invest.min_withdrawal {
            return Err(
                ContractError::UnbondTooSmall { min_withdrawal: self.invest.min_withdrawal },
            );
        }
        proof {
            lemma_mul_nonnegative(amount as int, self.invest.exit_tax as int);
            lemma_mul_inequality(
                self.invest.exit_tax as int,
                FRACTION_UNIT as int,
                amount as int,
            );
            lemma_div_is_ordered(
                amount * self.invest.exit_tax,
                FRACTION_UNIT * amount,
                FRACTION_UNIT as int,
            );
            lemma_div_multiples_vanish(amount as int, FRACTION_UNIT as int);
            lemma_div_pos_is_pos(amount * self.invest.exit_tax, FRACTION_UNIT as int);
            assert(0 <= tax_amount(amount, self.invest.exit_tax) <= amount);
        }
        let tax = match checked_mul_ratio(amount, self.invest.exit_tax, FRACTION_UNIT) {
            None => {
                return Err(ContractError::Overflow);
            },
            Some(t) => t,
        };
        let balance = self.ledger.read(caller);
        if balance < amount {
            return Err(ContractError::InsufficientBalance);
        }
        if observed_bonded != self.supply.bonded {
            return Err(
                ContractError::BondedMismatch {
                    stored: self.supply.bonded,
                    queried: observed_bonded,
                },
            );
        }
        let remainder = amount - tax;
        if self.supply.issued == 0 {
            return Err(ContractError::DivideByZero);
        }
        if remainder > self.supply.issued {
            return Err(ContractError::Overflow);
        }
        proof {
            lemma_mul_nonnegative(remainder as int, self.supply.bonded as int);
            lemma_mul_inequality(
                remainder as int,
                self.supply.issued as int,
                self.supply.bonded as int,
            );
            lemma_div_is_ordered(
                remainder * self.supply.bonded,
                self.supply.issued * self.supply.bonded,
                self.supply.issued as int,
            );
            lemma_div_multiples_vanish(self.supply.bonded as int, self.supply.issued as int);
            lemma_div_pos_is_pos(remainder * self.supply.bonded, self.supply.issued as int);
        }
        let unbond_value = match checked_mul_ratio(
            remainder,
            self.supply.bonded,
            self.supply.issued,
        ) {
            None => {
                return Err(ContractError::Overflow);
            },
            Some(v) => v,
        };
        if unbond_value > u128::MAX - self.supply.claims {
            return Err(ContractError::Overflow);
        }
        proof {
            lemma_bal_le_sum(self.ledger.entries@, caller);
        }
        self.ledger.debit(caller, amount);
        if tax > 0 {
            proof {
                lemma_bal_le_sum(self.ledger.entries@, self.invest.owner);
            }
            let owner_acct = self.invest.owner;
            self.ledger.credit(owner_acct, tax);
        }
        self.token.total_supply = (self.token.total_supply - amount) + tax;
        self.supply.issued = self.supply.issued - remainder;
        self.supply.bonded = observed_bonded - unbond_value;
        self.supply.claims = self.supply.claims + unbond_value;
        let release_time = now + self.invest.unbonding_period;
        proof {
            lemma_claim_total_push(
                self.queue.entries@,
                ClaimEntry { owner: caller, amount: unbond_value, release_time },
            );
        }
        self.queue.create(caller, unbond_value, release_time);
        Ok(
            Instruction::Undelegate {
                validator: self.invest.validator.clone(),
                amount: unbond_value,
            },
        )
    }

    /// The amount `claim` would pay `caller` at time `now` with
    /// `custody` available: the smaller of the available custody and the
    /// caller's matured total.
    pub open spec fn claimable(self, caller: u64, now: u64, custody: u128) -> int {
        if custody as int <= matured_of(self.queue.entries@, caller, now) {
            custody as int
        } else {
            matured_of(self.queue.entries@, caller, now)
        }
    }

    /// Pay out the caller's matured claims, up to what custody can
    /// cover: partial settlement is explicit policy, so whatever cannot
    /// be paid now stays queued for a later claim.
    pub fn claim(&mut self, caller: u64, now: u64, custody: u128) -> (r: Result<
        Instruction,
        ContractError,
    >)
        requires
            old(self).wf(),
        ensures
            final(self).wf(),
            r is Err ==> *final(self) == *old(self),
            custody < old(self).invest.min_withdrawal <==> r == Err::<Instruction, ContractError>(
                ContractError::BalanceTooSmall,
            ),
            (custody >= old(self).invest.min_withdrawal && old(self).claimable(caller, now, custody)
                == 0) <==> r == Err::<Instruction, ContractError>(ContractError::NothingToClaim),
            r is Ok <==> custody >= old(self).invest.min_withdrawal && old(self).claimable(
                caller,
                now,
                custody,
            ) > 0,
            r is Ok ==> {
                let paid = old(self).claimable(caller, now, custody);
                &&& final(self).supply.claims == old(self).supply.claims - paid
                &&& final(self).queue.entries@ == drain_rest(
                    old(self).queue.entries@,
                    caller,
                    now,
                    custody,
                )
                &&& matured_of(final(self).queue.entries@, caller, now) == matured_of(
                    old(self).queue.entries@,
                    caller,
                    now,
                ) - paid
                &&& final(self).supply.issued == old(self).supply.issued
                &&& final(self).supply.bonded == old(self).supply.bonded
                &&& final(self).token == old(self).token
                &&& final(self).ledger == old(self).ledger
                &&& final(self).invest == old(self).invest
                &&& final(self).contract == old(self).contract
                &&& final(self).reinvest_pending == old(self).reinvest_pending
                &&& r == Ok::<Instruction, ContractError>(
                    Instruction::SendFunds {
                        to: caller,
                        denom: old(self).invest.bond_denom,
                        amount: paid as u128,
                    },
                )
            },
    {
        if custody < self.invest.min_withdrawal {
            return Err(ContractError::BalanceTooSmall);
        }
        proof {
            lemma_matured_nonneg(self.queue.entries@, caller, now);
            lemma_matured_le_total(self.queue.entries@, caller, now);
        }
        let matured = self.queue.matured_total(caller, now);
        let payable = if custody < matured {
            custody
        } else {
            matured
        };
        if payable == 0 {
            return Err(ContractError::NothingToClaim);
        }
        let paid = self.queue.drain(caller, now, custody);
        proof {
            lemma_drain_paid_is_min(old(self).queue.entries@, caller, now, custody);
            lemma_drain_matured(old(self).queue.entries@, caller, now, custody);
            lemma_drain_total(old(self).queue.entries@, caller, now, custody);
        }
        self.supply.claims = self.supply.claims - paid;
        Ok(
            Instruction::SendFunds {
                to: caller,
                denom: self.invest.bond_denom.clone(),
                amount: paid,
            },
        )
    }

    /// Trigger reinvestment: record that the follow-up self-call is
    /// owed, and hand the host the reward withdrawal together with the
    /// self-directed follow-up, to be dispatched in that order.
    pub fn reinvest(&mut self) -> (r: (Instruction, Instruction))
        requires
            old(self).wf(),
        ensures
            final(self).wf(),
            final(self).reinvest_pending,
            final(self).contract == old(self).contract,
            final(self).invest == old(self).invest,
            final(self).token == old(self).token,
            final(self).supply == old(self).supply,
            final(self).ledger == old(self).ledger,
            final(self).queue.entries@ == old(self).queue.entries@,
            r.0 == (Instruction::WithdrawRewards { validator: old(self).invest.validator }),
            r.1 == Instruction::SelfCallBondAll,
    {
        self.reinvest_pending = true;
        (
            Instruction::WithdrawRewards { validator: self.invest.validator.clone() },
            Instruction::SelfCallBondAll,
        )
    }

    /// The second phase of reinvestment, reachable only through the
    /// self-call queued by [`Engine::reinvest`]: bond whatever custody
    /// holds beyond the claims reserve.  A spare balance at or below the
    /// withdrawal floor is a silent no-op, not an error, so the reward
    /// withdrawal that already settled is kept.
    pub fn bond_all_tokens(&mut self, caller: u64, custody: u128) -> (r: Result<
        Option<Instruction>,
        ContractError,
    >)
        requires
            old(self).wf(),
        ensures
            final(self).wf(),
            r is Err ==> *final(self) == *old(self),
            (caller != old(self).contract || !old(self).reinvest_pending) <==> r == Err::<
                Option<Instruction>,
                ContractError,
            >(ContractError::Unauthorized),
            (caller == old(self).contract && old(self).reinvest_pending && custody <= old(
                self,
            ).supply.claims + old(self).invest.min_withdrawal) <==> r == Ok::<
                Option<Instruction>,
                ContractError,
            >(None),
            (caller == old(self).contract && old(self).reinvest_pending && custody > old(
                self,
            ).supply.claims + old(self).invest.min_withdrawal && old(self).supply.bonded + (custody
                - old(self).supply.claims) > u128::MAX) <==> r == Err::<
                Option<Instruction>,
                ContractError,
            >(ContractError::Overflow),
            (caller == old(self).contract && old(self).reinvest_pending && custody > old(
                self,
            ).supply.claims + old(self).invest.min_withdrawal && old(self).supply.bonded + (custody
                - old(self).supply.claims) <= u128::MAX) <==> r == Ok::<
                Option<Instruction>,
                ContractError,
            >(
                Some(
                    Instruction::Delegate {
                        validator: old(self).invest.validator,
                        amount: (custody - old(self).supply.claims) as u128,
                    },
                ),
            ),
            r is Ok ==> {
                &&& !final(self).reinvest_pending
                &&& final(self).supply.issued == old(self).supply.issued
                &&& final(self).supply.claims == old(self).supply.claims
                &&& final(self).token == old(self).token
                &&& final(self).ledger == old(self).ledger
                &&& final(self).queue.entries@ == old(self).queue.entries@
                &&& final(self).invest == old(self).invest
                &&& final(self).contract == old(self).contract
            },
            r == Ok::<Option<Instruction>, ContractError>(None) ==> final(self).supply.bonded
                == old(self).supply.bonded,
            r matches Ok(Some(_)) ==> final(self).supply.bonded == old(self).supply.bonded + (
            custody - old(self).supply.claims),
    {
        if caller != self.contract || !self.reinvest_pending {
            return Err(ContractError::Unauthorized);
        }
        if custody <= self.supply.claims {
            self.reinvest_pending = false;
            return Ok(None);
        }
        let spare = custody - self.supply.claims;
        if spare <= self.invest.min_withdrawal {
            self.reinvest_pending = false;
            return Ok(None);
        }
        if spare > u128::MAX - self.supply.bonded {
            return Err(ContractError::Overflow);
        }
        self.supply.bonded = self.supply.bonded + spare;
        self.reinvest_pending = false;
        Ok(Some(Instruction::Delegate { validator: self.invest.validator.clone(), amount: spare }))
    }
}

/// Locate the first coin of denomination `denom` in an attached payment.
fn find_bond_payment(funds: &Vec<Coin>, denom: &String) -> (r: Option<u128>)
    ensures
        r == find_payment(funds@, denom@),
{
    let ghost fs = funds@;
    let n = funds.len();
    proof {
        assert(fs.skip(0) =~= fs);
    }
    for k in 0..n
        invariant
            n == fs.len(),
            fs == funds@,
            find_payment(fs, denom@) == find_payment(fs.skip(k as int), denom@),
    {
        proof {
            assert(fs.skip(k as int)[0] == fs[k as int]);
            assert(fs.skip(k as int).drop_first() =~= fs.skip(k as int + 1));
        }
        if funds[k].denom == *denom {
            return Some(funds[k].amount);
        }
    }
    proof {
        assert(fs.skip(n as int) =~= Seq::<Coin>::empty());
    }
    None
}

/// Sum the delegations reported by the staking subsystem; fail when
/// denominations are mixed.
pub fn get_bonded(delegations: &Vec<Coin>) -> (r: Result<u128, ContractError>)
    ensures
        r matches Ok(v) ==> all_same_denom(delegations@) && v as int == coin_sum(delegations@),
        r is Ok <==> all_same_denom(delegations@) && coin_sum(delegations@) <= u128::MAX,
        !all_same_denom(delegations@) <==> (r matches Err(e) && (e matches
            ContractError::DifferentBondDenom { denom1, denom2 } && denom1@
            == delegations@[0].denom@ && denom2@ != delegations@[0].denom@ && (exists|k: int|
            0 <= k < delegations@.len() && denom2@ == delegations@[k].denom@))),
        all_same_denom(delegations@) && coin_sum(delegations@) > u128::MAX <==> r == Err::<
            u128,
            ContractError,
        >(ContractError::Overflow),
{
    let ghost s = delegations@;
    let n = delegations.len();
    if n == 0 {
        return Ok(0);
    }
    for i in 0..n
        invariant
            n == s.len(),
            s == delegations@,
            n > 0,
            forall|j: int| 0 <= j < i ==> #[trigger] s[j].denom@ == s[0].denom@,
    {
        if delegations[i].denom != delegations[0].denom {
            return Err(
                ContractError::DifferentBondDenom {
                    denom1: delegations[0].denom.clone(),
                    denom2: delegations[i].denom.clone(),
                },
            );
        }
    }
    let mut total: u128 = 0;
    proof {
        assert(s.skip(0) =~= s);
    }
    for i in 0..n
        invariant
            n == s.len(),
            s == delegations@,
            all_same_denom(s),
            total + coin_sum(s.skip(i as int)) == coin_sum(s),
    {
        proof {
            assert(s.skip(i as int)[0] == s[i as int]);
            assert(s.skip(i as int).drop_first() =~= s.skip(i as int + 1));
            lemma_coin_sum_nonneg(s.skip(i as int + 1));
        }
        let amt = delegations[i].amount;
        if amt > u128::MAX - total {
            return Err(ContractError::Overflow);
        }
        total = total + amt;
    }
    proof {
        assert(s.skip(n as int) =~= Seq::<Coin>::empty());
    }
    Ok(total)
}

/// Every reported delegation uses one denomination.
pub open spec fn all_same_denom(s: Seq<Coin>) -> bool {
    forall|i: int| 0 <= i < s.len() ==> #[trigger] s[i].denom@ == s[0].denom@
}

/// Sum of the reported delegation amounts.
pub open spec fn coin_sum(s: Seq<Coin>) -> int
    decreases s.len(),
{
    if s.len() == 0 {
        0
    } else {
        s[0].amount + coin_sum(s.drop_first())
    }
}

/// Delegation amounts are non-negative in sum.
proof fn lemma_coin_sum_nonneg(s: Seq<Coin>)
    ensures
        coin_sum(s) >= 0,
    decreases s.len(),
{
    if s.len() > 0 {
        lemma_coin_sum_nonneg(s.drop_first());
    }
}

/// Create the engine: validate the initial balances, enforce the supply
/// cap, and start with an empty staking position and claims queue.
pub fn instantiate(
    contract: u64,
    invest: InvestmentInfo,
    mint: Option<MinterData>,
    bank_denom: Option<String>,
    accounts: &Vec<(u64, u128)>,
) -> (r: Result<Engine, ContractError>)
    requires
        invest.wf(),
    ensures
        r matches Ok(e) ==> {
            &&& e.wf()
            &&& e.contract == contract
            &&& e.invest == invest
            &&& e.token.total_supply as int == sum_of(accounts@)
            &&& e.token.mint == mint
            &&& e.token.bank_denom == bank_denom
            &&& e.supply == (Supply { issued: 0, bonded: 0, claims: 0 })
            &&& forall|a: u64| e.bal(a) == bal_of(accounts@, a)
            &&& e.queue.entries@ =~= Seq::<ClaimEntry>::empty()
            &&& !e.reinvest_pending
        },
        !unique_keys(accounts@) <==> r == Err::<Engine, ContractError>(
            ContractError::DuplicateInitialBalanceAddresses,
        ),
        unique_keys(accounts@) && sum_of(accounts@) > u128::MAX <==> r == Err::<
            Engine,
            ContractError,
        >(ContractError::Overflow),
        (unique_keys(accounts@) && sum_of(accounts@) <= u128::MAX && (match cap_of(mint) {
            Some(c) => sum_of(accounts@) > c,
            None => false,
        })) <==> r == Err::<Engine, ContractError>(ContractError::CannotExceedCap),
        r is Ok <==> unique_keys(accounts@) && sum_of(accounts@) <= u128::MAX && (match cap_of(
            mint,
        ) {
            Some(c) => sum_of(accounts@) <= c,
            None => true,
        }),
{
    let (ledger, total) = match create_accounts(accounts) {
        Err(e) => {
            return Err(e);
        },
        Ok(p) => p,
    };
    let token = TokenInfo { total_supply: total, mint, bank_denom };
    match token.get_cap() {
        Some(limit) => {
            if total > limit {
                return Err(ContractError::CannotExceedCap);
            }
        },
        None => {},
    }
    Ok(
        Engine {
            contract,
            invest,
            token,
            supply: Supply { issued: 0, bonded: 0, claims: 0 },
            ledger,
            queue: ClaimQueue::new(),
            reinvest_pending: false,
        },
    )
}

/// The supply cap configured in a minter record.
pub open spec fn cap_of(mint: Option<MinterData>) -> Option<u128> {
    match mint {
        Some(m) => m.cap,
        None => None,
    }
}

} // verus!
