//! Powers and the two integer logarithms of the precision policy: how often
//! a number is quadrupled or doubled until it reaches another.

use vstd::prelude::*;
use crate::wide::{from_u64, limb_base, lemma_value_bound, lemma_weight_monotonic,
    lemma_weight_positive, mul_small, value_of, weight};

verus! {

/// `base` to the power `exponent`.
pub open spec fn ipow(base: int, exponent: nat) -> int
    decreases exponent,
{
    if exponent == 0 {
        1
    } else {
        base * ipow(base, (exponent - 1) as nat)
    }
}

/// How often `start` has to be multiplied by 4 until it reaches `target`.
pub open spec fn quadruplings(target: int, start: int) -> nat
    decreases (if target > start { target - start } else { 0 }),
{
    if start >= target || start <= 0 {
        0
    } else {
        1 + quadruplings(target, 4 * start)
    }
}

/// The least power of two that is at least `n`, found by doubling `p`.
pub open spec fn doubled_up_to(n: int, p: int) -> int
    decreases (if n > p { n - p } else { 0 }),
{
    if p >= n || p <= 0 {
        p
    } else {
        doubled_up_to(n, 2 * p)
    }
}

/// The least power of two that is at least `n`.
pub open spec fn next_power_of_two(n: int) -> int {
    doubled_up_to(n, 1)
}

/// Powers of a base that is at least 1 are at least 1.
pub proof fn lemma_ipow_positive(base: int, exponent: nat)
    requires
        base >= 1,
    ensures
        ipow(base, exponent) >= 1,
    decreases exponent,
{
    if exponent > 0 {
        lemma_ipow_positive(base, (exponent - 1) as nat);
        assert(base * ipow(base, (exponent - 1) as nat) >= 1) by (nonlinear_arith)
            requires
                base >= 1,
                ipow(base, (exponent - 1) as nat) >= 1,
        ;
    }
}

/// Powers grow with the base.
pub proof fn lemma_ipow_monotonic(a: int, b: int, exponent: nat)
    requires
        0 <= a <= b,
    ensures
        0 <= ipow(a, exponent) <= ipow(b, exponent),
    decreases exponent,
{
    if exponent > 0 {
        lemma_ipow_monotonic(a, b, (exponent - 1) as nat);
        assert(0 <= a * ipow(a, (exponent - 1) as nat) <= b * ipow(b, (exponent - 1) as nat))
            by (nonlinear_arith)
            requires
                0 <= a <= b,
                0 <= ipow(a, (exponent - 1) as nat) <= ipow(b, (exponent - 1) as nat),
        ;
    }
}

/// The power of a sum of exponents is the product of the powers.
pub proof fn lemma_ipow_add(base: int, a: nat, b: nat)
    ensures
        ipow(base, a + b) == ipow(base, a) * ipow(base, b),
    decreases a,
{
    if a == 0 {
        assert(1 * ipow(base, b) == ipow(base, b)) by (nonlinear_arith);
    } else {
        lemma_ipow_add(base, (a - 1) as nat, b);
        assert(ipow(base, a + b) == base * ipow(base, ((a - 1) + b) as nat));
        assert(base * (ipow(base, (a - 1) as nat) * ipow(base, b)) == (base * ipow(
            base,
            (a - 1) as nat,
        )) * ipow(base, b)) by (nonlinear_arith);
    }
}

/// The power of a product is the product of the powers.
pub proof fn lemma_ipow_of_product(a: int, b: int, exponent: nat)
    ensures
        ipow(a * b, exponent) == ipow(a, exponent) * ipow(b, exponent),
    decreases exponent,
{
    if exponent == 0 {
        assert(1int * 1int == 1);
    } else {
        let e = (exponent - 1) as nat;
        lemma_ipow_of_product(a, b, e);
        assert((a * b) * (ipow(a, e) * ipow(b, e)) == (a * ipow(a, e)) * (b * ipow(b, e)))
            by (nonlinear_arith);
    }
}

/// Powers of 4 grow with the exponent.
pub proof fn lemma_pow4_monotonic(j: nat, k: nat)
    requires
        j <= k,
    ensures
        1 <= ipow(4, j) <= ipow(4, k),
    decreases k,
{
    lemma_ipow_positive(4, j);
    if j < k {
        lemma_pow4_monotonic(j, (k - 1) as nat);
    }
}

/// Powers of 2 grow with the exponent.
pub proof fn lemma_pow2_monotonic(j: nat, k: nat)
    requires
        j <= k,
    ensures
        1 <= ipow(2, j) <= ipow(2, k),
    decreases k,
{
    lemma_ipow_positive(2, j);
    if j < k {
        lemma_pow2_monotonic(j, (k - 1) as nat);
    }
}

/// Of two powers of two, the greater is at least twice the smaller.
pub proof fn lemma_powers_of_two_apart(small: nat, large: nat)
    requires
        ipow(2, small) < ipow(2, large),
    ensures
        2 * ipow(2, small) <= ipow(2, large),
    decreases large,
{
    lemma_ipow_positive(2, small);
    if large == 0 {
    } else if small >= large {
        lemma_pow2_monotonic(large, small);
    } else if small + 1 < large {
        lemma_pow2_monotonic(small + 1, large);
    }
}

/// The weight of limb `i` is 4^(32 * i).
pub proof fn lemma_weight_is_pow4(i: nat)
    ensures
        weight(i) == ipow(4, 32 * i),
    decreases i,
{
    if i > 0 {
        lemma_weight_is_pow4((i - 1) as nat);
        assert(ipow(4, 4) == 256) by {
            reveal_with_fuel(ipow, 5);
        }
        lemma_ipow_add(4, 4, 4);
        assert(ipow(4, 8) == 0x1_0000) by (nonlinear_arith)
            requires
                ipow(4, 8) == ipow(4, 4) * ipow(4, 4),
                ipow(4, 4) == 256,
        ;
        lemma_ipow_add(4, 8, 8);
        assert(ipow(4, 16) == 0x1_0000_0000) by (nonlinear_arith)
            requires
                ipow(4, 16) == ipow(4, 8) * ipow(4, 8),
                ipow(4, 8) == 0x1_0000,
        ;
        lemma_ipow_add(4, 16, 16);
        assert(ipow(4, 32) == limb_base()) by (nonlinear_arith)
            requires
                ipow(4, 32) == ipow(4, 16) * ipow(4, 16),
                ipow(4, 16) == 0x1_0000_0000,
        ;
        lemma_ipow_add(4, (32 * (i - 1)) as nat, 32);
    }
}

/// The count of quadruplings is the least `k` for which `4^k * start`
/// reaches `target`.
pub proof fn lemma_quadruplings_least(target: int, start: int)
    requires
        start > 0,
    ensures
        ipow(4, quadruplings(target, start)) * start >= target,
        forall|j: nat| j < quadruplings(target, start) ==> #[trigger] ipow(4, j) * start < target,
    decreases (if target > start { target - start } else { 0 }),
{
    if start >= target {
        assert(ipow(4, 0) * start == start) by (nonlinear_arith)
            requires
                ipow(4, 0) == 1,
        ;
    } else {
        lemma_quadruplings_least(target, 4 * start);
        let q = quadruplings(target, 4 * start);
        assert(ipow(4, q + 1) == 4 * ipow(4, q));
        assert(ipow(4, q + 1) * start == ipow(4, q) * (4 * start)) by (nonlinear_arith)
            requires
                ipow(4, q + 1) == 4 * ipow(4, q),
        ;
        assert forall|j: nat| j < q + 1 implies #[trigger] ipow(4, j) * start < target by {
            if j == 0 {
                assert(ipow(4, 0) * start == start) by (nonlinear_arith)
                    requires
                        ipow(4, 0) == 1,
                ;
            } else {
                let i = (j - 1) as nat;
                assert(ipow(4, i) * (4 * start) < target);
                assert(ipow(4, j) == 4 * ipow(4, i));
                assert(ipow(4, j) * start == ipow(4, i) * (4 * start)) by (nonlinear_arith)
                    requires
                        ipow(4, j) == 4 * ipow(4, i),
                ;
            }
        }
    }
}

/// A larger target takes at least as many quadruplings.
pub proof fn lemma_quadruplings_monotonic(small: int, large: int, start: int)
    requires
        small <= large,
    ensures
        quadruplings(small, start) <= quadruplings(large, start),
    decreases (if large > start { large - start } else { 0 }),
{
    if start < small && start > 0 {
        lemma_quadruplings_monotonic(small, large, 4 * start);
    }
}

/// Doubling from a power of two ends at a power of two that is at least `n`
/// and less than twice `n`, or at the start if that is large enough.
pub proof fn lemma_doubled_up_to(n: int, p: int)
    requires
        p >= 1,
    ensures
        doubled_up_to(n, p) >= n,
        doubled_up_to(n, p) >= p,
        p < n ==> doubled_up_to(n, p) < 2 * n,
        exists|e: nat| doubled_up_to(n, p) == p * #[trigger] ipow(2, e),
    decreases (if n > p { n - p } else { 0 }),
{
    if p >= n {
        assert(p == p * ipow(2, 0)) by (nonlinear_arith)
            requires
                ipow(2, 0) == 1,
        ;
    } else {
        lemma_doubled_up_to(n, 2 * p);
        let e = choose|e: nat| doubled_up_to(n, 2 * p) == (2 * p) * #[trigger] ipow(2, e);
        assert(ipow(2, e + 1) == 2 * ipow(2, e));
        assert((2 * p) * ipow(2, e) == p * ipow(2, e + 1)) by (nonlinear_arith)
            requires
                ipow(2, e + 1) == 2 * ipow(2, e),
        ;
    }
}

/// The rounded value is a power of two, at least `n`, and less than twice
/// `n` for a positive `n`.
pub proof fn lemma_next_power_of_two(n: int)
    ensures
        next_power_of_two(n) >= n,
        next_power_of_two(n) >= 1,
        n >= 1 ==> next_power_of_two(n) < 2 * n,
        exists|e: nat| next_power_of_two(n) == #[trigger] ipow(2, e),
{
    lemma_doubled_up_to(n, 1);
    let e = choose|e: nat| doubled_up_to(n, 1) == 1 * #[trigger] ipow(2, e);
    assert(1 * ipow(2, e) == ipow(2, e)) by (nonlinear_arith);
}

/// Rounding up to a power of two keeps the order.
pub proof fn lemma_next_power_of_two_monotonic(n: int, m: int)
    requires
        n <= m,
    ensures
        next_power_of_two(n) <= next_power_of_two(m),
{
    lemma_next_power_of_two(n);
    lemma_next_power_of_two(m);
    let p = next_power_of_two(n);
    let q = next_power_of_two(m);
    if p > q {
        let e = choose|e: nat| p == #[trigger] ipow(2, e);
        let f = choose|f: nat| q == #[trigger] ipow(2, f);
        lemma_powers_of_two_apart(f, e);
    }
}

/// The seventh power of `x` as a number of eight limbs.
pub fn seventh_power(x: u64) -> (limbs: Vec<u64>)
    ensures
        limbs@.len() == 8,
        value_of(limbs@) == ipow(x as int, 7),
        value_of(limbs@) < weight(7),
{
    let mut limbs = from_u64(x, 8);
    let mut j: usize = 1;
    proof {
        reveal_with_fuel(ipow, 2);
        reveal_with_fuel(weight, 2);
        assert(ipow(x as int, 1) == x) by (nonlinear_arith)
            requires
                ipow(x as int, 1) == x * 1,
        ;
        assert(weight(1) == limb_base());
    }
    while j < 7
        invariant
            1 <= j <= 7,
            limbs@.len() == 8,
            value_of(limbs@) == ipow(x as int, j as nat),
            0 <= value_of(limbs@) < weight(j as nat),
        decreases 7 - j,
    {
        let ghost before = value_of(limbs@);
        let (product, carry) = mul_small(&limbs, x);
        proof {
            let w = weight(j as nat);
            lemma_weight_monotonic((j + 1) as nat, 8);
            lemma_weight_positive(8);
            lemma_value_bound(product@);
            assert(0 <= before * x < w * limb_base()) by (nonlinear_arith)
                requires
                    0 <= before < w,
                    0 <= x < limb_base(),
            ;
            assert(carry == 0) by (nonlinear_arith)
                requires
                    value_of(product@) + carry * weight(8) == before * x,
                    before * x < weight(8),
                    value_of(product@) >= 0,
                    carry >= 0,
                    weight(8) > 0,
            ;
            assert(0 * weight(8) == 0) by (nonlinear_arith);
            assert(ipow(x as int, (j + 1) as nat) == x * ipow(x as int, j as nat));
            assert(before * x == x * before) by (nonlinear_arith);
        }
        limbs = product;
        j += 1;
    }
    limbs
}

/// Rounds `n` up to a power of two.  Above 2^31 no power of two fits in
/// 32 bits.
pub fn round_up_to_power_of_two(n: u32) -> (p: u32)
    requires
        n <= 0x8000_0000,
    ensures
        p == next_power_of_two(n as int),
{
    let mut p: u32 = 1;
    while p < n
        invariant
            p >= 1,
            n <= 0x8000_0000,
            doubled_up_to(n as int, p as int) == next_power_of_two(n as int),
        decreases (if n > p { n - p } else { 0 }),
    {
        p = 2 * p;
    }
    p
}

} // verus!
