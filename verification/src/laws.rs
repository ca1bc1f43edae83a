//! Engine-level laws: properties that span several operations, proved
//! from the operations' own contracts.

use vstd::arithmetic::div_mod::{lemma_div_by_self, lemma_div_is_ordered};
use vstd::prelude::*;

use crate::claims::{lemma_matured_push, matured_of, ClaimEntry};
use crate::contract::{mint_amount, Engine};

verus! {

/// A successful bond strictly increases the issued supply: `bond`
/// ensures that the new issued amount is the old one plus
/// [`mint_amount`], and the minted amount is positive for every non-zero
/// payment that does not floor to zero — under the fallback ratio any
/// positive payment mints, and otherwise it suffices that
/// `payment * issued` reaches `bonded`.
pub proof fn law_bond_mints_positive(payment: u128, issued: u128, bonded: u128)
    requires
        payment > 0,
        issued != 0 && bonded != 0 ==> payment * issued >= bonded,
    ensures
        mint_amount(payment, issued, bonded) >= 1,
{
    if issued != 0 && bonded != 0 {
        lemma_div_is_ordered(bonded as int, payment * issued, bonded as int);
        lemma_div_by_self(bonded as int);
    }
}

/// An unbond followed immediately by a claim yields nothing to pay: the
/// entry that `unbond` appends matures only at its release time, so as
/// long as the caller had no other matured entries, the matured total
/// stays zero before that moment — and `claim` returns `NothingToClaim`
/// exactly when the matured total or the custody balance is zero.
pub proof fn law_claim_before_release(q: Seq<ClaimEntry>, e: ClaimEntry, now: u64)
    requires
        now < e.release_time,
        matured_of(q, e.owner, now) == 0,
    ensures
        matured_of(q.push(e), e.owner, now) == 0,
{
    lemma_matured_push(q, e, e.owner, now);
}

/// Converting from the bank and back by the same caller restores the
/// ledger and the total supply exactly: the 1:1 swap has no rounding.
/// The hypotheses are the success postconditions of
/// `execute_bank_to_cw20` for a coin of amount `x` (from `e0` to `e1`)
/// and of `execute_cw20_to_bank` for the same `x` (from `e1` to `e2`);
/// the second call is owed success by its contract, since after the
/// first the caller's balance holds at least `x > 0`.
pub proof fn law_convert_round_trip(e0: Engine, e1: Engine, e2: Engine, caller: u64, x: u128)
    requires
        e1.token.total_supply == e0.token.total_supply + x,
        e1.bal(caller) == e0.bal(caller) + x,
        forall|b: u64| b != caller ==> e1.bal(b) == e0.bal(b),
        e2.token.total_supply == e1.token.total_supply - x,
        e2.bal(caller) == e1.bal(caller) - x,
        forall|b: u64| b != caller ==> e2.bal(b) == e1.bal(b),
    ensures
        e2.token.total_supply == e0.token.total_supply,
        forall|b: u64| e2.bal(b) == e0.bal(b),
{
    assert forall|b: u64| e2.bal(b) == e0.bal(b) by {
        if b != caller {
            assert(e1.bal(b) == e0.bal(b));
            assert(e2.bal(b) == e1.bal(b));
        }
    }
}

} // verus!
