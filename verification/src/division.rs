//! Division that rounds towards zero, as machine integers have it.
use vstd::prelude::*;

verus! {

/// The quotient of two integers, rounded toward zero.
pub open spec fn truncated_quotient(a: int, b: int) -> int {
    if a >= 0 {
        a / b
    } else {
        -((-a) / b)
    }
}

/// What is left of `a` once the rounded quotient is taken out; it has the sign of `a`.
pub open spec fn truncated_remainder(a: int, b: int) -> int {
    if a >= 0 {
        a % b
    } else {
        -((-a) % b)
    }
}

/// The rounded quotient and what is left make up the dividend. What is left is smaller than the divisor
/// and never of the other sign than the dividend.
pub proof fn quotient_and_remainder_make_up_the_dividend(a: int, b: int)
    requires
        b != 0,
    ensures
        truncated_quotient(a, b) * b + truncated_remainder(a, b) == a,
        a >= 0 ==> 0 <= truncated_remainder(a, b),
        a <= 0 ==> truncated_remainder(a, b) <= 0,
        b > 0 ==> -b < truncated_remainder(a, b) < b,
        b < 0 ==> b < truncated_remainder(a, b) < -b,
{
    let c = if a >= 0 {
        a
    } else {
        -a
    };
    vstd::arithmetic::div_mod::lemma_fundamental_div_mod(c, b);
    let q = c / b;
    if c == 0 {
        assert(c % b == 0) by (nonlinear_arith)
            requires
                c == 0,
                b != 0,
        ;
    }
    assert(b * q == q * b) by (nonlinear_arith);
    assert((-q) * b == -(q * b)) by (nonlinear_arith);
    if b > 0 {
        assert(0 <= c % b < b) by (nonlinear_arith)
            requires
                b > 0,
        ;
    } else {
        assert(0 <= c % b < -b) by (nonlinear_arith)
            requires
                b < 0,
        ;
    }
}

} // verus!
