//! Fixed-point numbers of the complex plane.
//!
//! A plane coordinate is a signed integer that counts units of 2^-56.  The
//! whole crate computes on such integers; nothing is rounded except where a
//! function says so, and then always toward zero.

use vstd::prelude::*;

verus! {

/// Number of fractional bits of a plane coordinate.
pub const FRAC_BITS: u32 = 56;

/// The coordinate 1.0.
pub const ONE: i64 = 0x0100_0000_0000_0000;

/// Largest magnitude of a coordinate that a viewport may show: 32.0.
pub const EXTENT: i64 = 0x2000_0000_0000_0000;

/// The quotient of `a` by a positive `d`, rounded toward zero.
pub open spec fn div_toward_zero(a: int, d: int) -> int {
    if a >= 0 {
        a / d
    } else {
        -((-a) / d)
    }
}

/// The product of two coordinates as a coordinate, rounded toward zero.
pub open spec fn rescale(product: int) -> int {
    div_toward_zero(product, ONE as int)
}

/// `value * numerator / denominator`, rounded toward zero.
pub open spec fn scale_by(value: int, numerator: int, denominator: int) -> int {
    div_toward_zero(value * numerator, denominator)
}

/// Rounding toward zero commutes with negation.
pub proof fn lemma_div_toward_zero_negate(a: int, d: int)
    requires
        d > 0,
    ensures
        div_toward_zero(-a, d) == -div_toward_zero(a, d),
{
    if a == 0 {
        assert(0int / d == 0) by (nonlinear_arith)
            requires
                d > 0,
        ;
    }
}

/// Rounding toward zero never moves a quotient away from zero, and moves it
/// by less than one.
pub proof fn lemma_div_toward_zero_bounds(a: int, d: int)
    requires
        d > 0,
    ensures
        a >= 0 ==> 0 <= div_toward_zero(a, d) * d <= a < div_toward_zero(a, d) * d + d,
        a <= 0 ==> 0 >= div_toward_zero(a, d) * d >= a > div_toward_zero(a, d) * d - d,
{
    if a >= 0 {
        vstd::arithmetic::div_mod::lemma_fundamental_div_mod(a, d);
        vstd::arithmetic::div_mod::lemma_mod_bound(a, d);
        vstd::arithmetic::div_mod::lemma_div_pos_is_pos(a, d);
        assert(d * (a / d) == (a / d) * d) by (nonlinear_arith);
        assert(0 <= (a / d) * d) by (nonlinear_arith)
            requires
                a / d >= 0,
                d > 0,
        ;
    }
    if a <= 0 {
        let b = -a;
        vstd::arithmetic::div_mod::lemma_fundamental_div_mod(b, d);
        vstd::arithmetic::div_mod::lemma_mod_bound(b, d);
        vstd::arithmetic::div_mod::lemma_div_pos_is_pos(b, d);
        assert(d * (b / d) == (b / d) * d) by (nonlinear_arith);
        assert(0 <= (b / d) * d) by (nonlinear_arith)
            requires
                b / d >= 0,
                d > 0,
        ;
        assert((-(b / d)) * d == -((b / d) * d)) by (nonlinear_arith);
        if a == 0 {
            assert(0int / d == 0) by (nonlinear_arith)
                requires
                    d > 0,
            ;
        }
    }
}

/// `value * numerator / denominator` rounded toward zero, for a coordinate
/// and a ratio of two 32-bit numbers.
pub fn scale_ratio(value: i64, numerator: u32, denominator: u32) -> (r: i128)
    requires
        denominator > 0,
    ensures
        r == scale_by(value as int, numerator as int, denominator as int),
{
    assert(-0x8000_0000_0000_0000 * 0x1_0000_0000 <= value * numerator <= 0x8000_0000_0000_0000
        * 0x1_0000_0000) by (nonlinear_arith)
        requires
            -0x8000_0000_0000_0000 <= value <= 0x8000_0000_0000_0000,
            0 <= numerator <= 0x1_0000_0000,
    ;
    let product: i128 = (value as i128) * (numerator as i128);
    product / (denominator as i128)
}

} // verus!
