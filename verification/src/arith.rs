//! Ratio multiplication on 128-bit amounts, computed on the full-width
//! product so that no precision is lost to an early division.

use vstd::prelude::*;

verus! {

/// Relies on `cosmwasm_std::Uint128::checked_multiply_ratio`: the product
/// `a * b` is formed at full width, divided by `c` and floored; the call
/// reports an error when `c` is zero or when the floored quotient does
/// not fit in `u128`.
#[verifier::external_body]
pub(crate) fn checked_mul_ratio(a: u128, b: u128, c: u128) -> (r: Option<u128>)
    ensures
        c == 0 ==> r is None,
        c != 0 && a * b / (c as int) <= u128::MAX as int ==> r == Some((a * b / (c as int)) as u128),
        c != 0 && a * b / (c as int) > u128::MAX as int ==> r is None,
{
    match cosmwasm_std::Uint128::new(a).checked_multiply_ratio(b, c) {
        Ok(v) => Some(v.u128()),
        Err(_) => None,
    }
}

} // verus!
