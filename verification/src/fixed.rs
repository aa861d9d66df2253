use vstd::prelude::*;

use crate::error::Error;

verus! {

/// One whole unit of a fixed-point decimal, in atomic parts: every rate,
/// price, index and threshold in the ledger is a `u128` count of these parts.
pub const SCALE: u128 = 1_000_000_000_000_000_000;

/// Seconds in a year, the period over which interest rates are quoted.
pub const SECONDS_PER_YEAR: u128 = 31_536_000;

/// Whether the product `a * b` stays within the arithmetic range, so that a
/// scaled multiply-then-divide on it succeeds.
pub open spec fn product_fits(a: u128, b: u128) -> bool {
    a * b <= u128::MAX
}

/// The real amount a scaled balance stands for under an index:
/// `scaled * index / SCALE`, floored.
pub open spec fn spec_underlying(scaled: int, index: int) -> int {
    scaled * index / (SCALE as int)
}

/// The scaled balance a real amount converts to under an index:
/// `amount * SCALE / index`, floored.
pub open spec fn spec_scaled(amount: int, index: int) -> int {
    amount * SCALE / index
}

/// An amount no larger than a scaled balance's real value converts back to
/// no more than that scaled balance: withdrawing or repaying what a balance
/// is worth can never burn more than the balance itself.
pub proof fn lemma_scaled_roundtrip_le(scaled: int, amount: int, index: int)
    requires
        index > 0,
        scaled >= 0,
        0 <= amount <= spec_underlying(scaled, index),
    ensures
        spec_scaled(amount, index) <= scaled,
{
    vstd::arithmetic::div_mod::lemma_fundamental_div_mod(scaled * index, SCALE as int);
    vstd::arithmetic::div_mod::lemma_mod_division_less_than_divisor(scaled * index, SCALE as int);
    assert(spec_underlying(scaled, index) * SCALE <= scaled * index);
    vstd::arithmetic::mul::lemma_mul_inequality(
        amount,
        spec_underlying(scaled, index),
        SCALE as int,
    );
    assert(amount * SCALE <= scaled * index);
    vstd::arithmetic::div_mod::lemma_div_is_ordered(amount * SCALE, scaled * index, index);
    vstd::arithmetic::div_mod::lemma_div_by_multiple(scaled, index);
    vstd::arithmetic::mul::lemma_mul_is_commutative(scaled, index);
}

/// Floor of `a * b / c`, the one primitive behind every fixed-point
/// conversion in the ledger: scaling an amount by an index, applying a rate,
/// or valuing an amount at a price.
pub fn mul_div(a: u128, b: u128, c: u128) -> (r: Result<u128, Error>)
    requires
        c > 0,
    ensures
        r is Ok <==> product_fits(a, b),
        r is Ok ==> r->Ok_0 == a * b / (c as int),
        r is Err ==> r->Err_0 == Error::Overflow,
{
    match a.checked_mul(b) {
        Some(p) => Ok(p / c),
        None => Err(Error::Overflow),
    }
}

} // verus!
