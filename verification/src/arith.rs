//! Small arithmetic facts shared by the pipeline's proofs: bounds on
//! truncated fractions and products.

use vstd::prelude::*;

verus! {

/// A truncated fraction stays within its bound: if `0 <= num <= den * bound`,
/// then `0 <= num / den <= bound`.
pub proof fn lemma_div_frac_bound(num: int, den: int, bound: int)
    requires
        0 <= num,
        num <= den * bound,
        1 <= den,
        0 <= bound,
    ensures
        0 <= num / den <= bound,
{
    vstd::arithmetic::div_mod::lemma_div_pos_is_pos(num, den);
    vstd::arithmetic::div_mod::lemma_div_is_ordered(num, den * bound, den);
    vstd::arithmetic::div_mod::lemma_div_multiples_vanish(bound, den);
}

/// Multiplying both sides of `a <= b` by a non-negative factor keeps the order.
pub proof fn lemma_mul_le(a: int, b: int, f: int)
    requires
        a <= b,
        0 <= f,
    ensures
        a * f <= b * f,
{
    vstd::arithmetic::mul::lemma_mul_inequality(a, b, f);
}

/// Bound on a product of two bounded non-negative factors.
pub proof fn lemma_mul_bounds(a: int, b: int, ca: int, cb: int)
    requires
        0 <= a <= ca,
        0 <= b <= cb,
    ensures
        0 <= a * b <= ca * cb,
{
    assert(0 <= a * b <= ca * cb) by (nonlinear_arith)
        requires 0 <= a <= ca, 0 <= b <= cb;
}

} // verus!
