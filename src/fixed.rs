//! Fixed-point arithmetic with nine decimal places.
use vstd::prelude::*;

verus! {

/// One unit in fixed-point representation.
pub const SCALE: u64 = 1_000_000_000;

/// Clamps a non-negative quantity to the range of `u64`.
pub open spec fn saturate(x: int) -> int {
    if x > u64::MAX as int {
        u64::MAX as int
    } else {
        x
    }
}

/// The fixed-point product of `a` and `b`, rounded down and saturated.
pub open spec fn fx_mul(a: int, b: int) -> int {
    saturate(a * b / (SCALE as int))
}

proof fn lemma_product_fits(a: u64, b: u64)
    ensures
        (a as int) * (b as int) <= u128::MAX as int,
        (a as int) * (b as int) >= 0,
{
    assert((a as int) * (b as int) <= (u64::MAX as int) * (u64::MAX as int)) by (nonlinear_arith)
        requires
            a <= u64::MAX,
            b <= u64::MAX,
    ;
    assert((a as int) * (b as int) >= 0) by (nonlinear_arith)
        requires
            a >= 0,
            b >= 0,
    ;
}

/// Multiplies two fixed-point numbers, rounding down and saturating at
/// `u64::MAX`.
pub fn mul_sat(a: u64, b: u64) -> (r: u64)
    ensures
        r == fx_mul(a as int, b as int),
{
    proof {
        lemma_product_fits(a, b);
    }
    let p: u128 = (a as u128) * (b as u128);
    let q: u128 = p / (SCALE as u128);
    if q > u64::MAX as u128 {
        u64::MAX
    } else {
        q as u64
    }
}

} // verus!
