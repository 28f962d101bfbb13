//! Unsigned integers of several 64-bit limbs, as far as the precision
//! policy needs them: multiplying by one limb and comparing.
//!
//! The limbs are stored least significant first.

use vstd::prelude::*;

verus! {

/// 2^64, the weight of one limb.
pub open spec fn limb_base() -> int {
    0x1_0000_0000_0000_0000
}

/// The weight of limb `i`: 2^(64 * i).
pub open spec fn weight(i: nat) -> int
    decreases i,
{
    if i == 0 {
        1
    } else {
        weight((i - 1) as nat) * limb_base()
    }
}

/// The number that a sequence of limbs stands for.
pub open spec fn value_of(limbs: Seq<u64>) -> int
    decreases limbs.len(),
{
    if limbs.len() == 0 {
        0
    } else {
        value_of(limbs.drop_last()) + limbs.last() * weight((limbs.len() - 1) as nat)
    }
}

/// Weights are positive.
pub proof fn lemma_weight_positive(i: nat)
    ensures
        weight(i) > 0,
    decreases i,
{
    if i > 0 {
        lemma_weight_positive((i - 1) as nat);
        assert(weight((i - 1) as nat) * limb_base() > 0) by (nonlinear_arith)
            requires
                weight((i - 1) as nat) > 0,
                limb_base() > 0,
        ;
    }
}

/// Later limbs weigh at least as much as earlier ones.
pub proof fn lemma_weight_monotonic(i: nat, j: nat)
    requires
        i <= j,
    ensures
        weight(i) <= weight(j),
    decreases j,
{
    if i < j {
        lemma_weight_monotonic(i, (j - 1) as nat);
        lemma_weight_positive((j - 1) as nat);
        assert(weight((j - 1) as nat) <= weight((j - 1) as nat) * limb_base()) by (nonlinear_arith)
            requires
                weight((j - 1) as nat) > 0,
                limb_base() >= 1,
        ;
    }
}

/// A number of `n` limbs is below the weight of limb `n`.
pub proof fn lemma_value_bound(limbs: Seq<u64>)
    ensures
        0 <= value_of(limbs) < weight(limbs.len()),
    decreases limbs.len(),
{
    if limbs.len() > 0 {
        let n = (limbs.len() - 1) as nat;
        lemma_value_bound(limbs.drop_last());
        lemma_weight_positive(n);
        let top = limbs.last() as int;
        let w = weight(n);
        assert(0 <= top * w && top * w + w <= w * limb_base()) by (nonlinear_arith)
            requires
                0 <= top < limb_base(),
                w > 0,
        ;
    }
}

/// The number `x` in `len` limbs.
pub fn from_u64(x: u64, len: usize) -> (limbs: Vec<u64>)
    requires
        len >= 1,
    ensures
        limbs@.len() == len,
        value_of(limbs@) == x,
{
    let mut limbs: Vec<u64> = Vec::new();
    limbs.push(x);
    proof {
        assert(limbs@.drop_last() =~= Seq::<u64>::empty());
        assert(value_of(limbs@.drop_last()) == 0);
        assert(x * weight(0) == x) by (nonlinear_arith)
            requires
                weight(0) == 1,
        ;
    }
    while limbs.len() < len
        invariant
            1 <= limbs@.len() <= len,
            value_of(limbs@) == x,
        decreases len - limbs@.len(),
    {
        let ghost before = limbs@;
        limbs.push(0);
        proof {
            assert(limbs@.drop_last() =~= before);
            assert(0 * weight((limbs@.len() - 1) as nat) == 0) by (nonlinear_arith);
        }
    }
    limbs
}

/// Multiplies a number by one limb.  The product keeps the length of the
/// input; what does not fit is returned as the carry, so that
/// `product + carry * 2^(64 * len)` is the exact result.
pub fn mul_small(limbs: &Vec<u64>, factor: u64) -> (out: (Vec<u64>, u64))
    ensures
        out.0@.len() == limbs@.len(),
        value_of(out.0@) + out.1 * weight(limbs@.len()) == value_of(limbs@) * factor,
{
    let mut product: Vec<u64> = Vec::new();
    let mut carry: u64 = 0;
    let mut i: usize = 0;
    proof {
        assert(limbs@.take(0) =~= Seq::<u64>::empty());
        assert(0 * factor == 0) by (nonlinear_arith);
        assert(0 * weight(0) == 0) by (nonlinear_arith);
    }
    while i < limbs.len()
        invariant
            0 <= i <= limbs@.len(),
            product@.len() == i,
            value_of(product@) + carry * weight(i as nat) == value_of(limbs@.take(i as int))
                * factor,
        decreases limbs@.len() - i,
    {
        let limb: u64 = limbs[i];
        assert(limb * factor + carry <= 0xFFFF_FFFF_FFFF_FFFF * 0xFFFF_FFFF_FFFF_FFFF
            + 0xFFFF_FFFF_FFFF_FFFF) by (nonlinear_arith)
            requires
                0 <= limb <= 0xFFFF_FFFF_FFFF_FFFF,
                0 <= factor <= 0xFFFF_FFFF_FFFF_FFFF,
                0 <= carry <= 0xFFFF_FFFF_FFFF_FFFF,
        ;
        let total: u128 = (limb as u128) * (factor as u128) + (carry as u128);
        let low: u64 = (total % 0x1_0000_0000_0000_0000) as u64;
        let high: u64 = (total / 0x1_0000_0000_0000_0000) as u64;
        let ghost before = product@;
        product.push(low);
        proof {
            let w = weight(i as nat);
            let shorter = limbs@.take(i as int);
            let longer = limbs@.take(i + 1);
            assert(longer.drop_last() =~= shorter);
            assert(longer.last() == limb);
            assert(product@.drop_last() =~= before);
            assert(total == high * limb_base() + low);
            assert(weight((i + 1) as nat) == w * limb_base());
            assert(value_of(product@) + high * (w * limb_base()) == (value_of(shorter) + limb
                * w) * factor) by (nonlinear_arith)
                requires
                    value_of(product@) == value_of(before) + low * w,
                    value_of(before) + carry * w == value_of(shorter) * factor,
                    limb * factor + carry == high * limb_base() + low,
            ;
        }
        carry = high;
        i += 1;
    }
    proof {
        assert(limbs@.take(limbs@.len() as int) =~= limbs@);
    }
    (product, carry)
}

/// Whether the number `a` is less than the number `b` of the same length.
pub fn less_than(a: &Vec<u64>, b: &Vec<u64>) -> (r: bool)
    requires
        a@.len() == b@.len(),
    ensures
        r == (value_of(a@) < value_of(b@)),
{
    let mut i: usize = a.len();
    proof {
        assert(a@.take(i as int) =~= a@);
        assert(b@.take(i as int) =~= b@);
    }
    while i > 0
        invariant
            0 <= i <= a@.len(),
            a@.len() == b@.len(),
            (value_of(a@) < value_of(b@)) == (value_of(a@.take(i as int)) < value_of(
                b@.take(i as int),
            )),
            (value_of(a@) == value_of(b@)) == (value_of(a@.take(i as int)) == value_of(
                b@.take(i as int),
            )),
        decreases i,
    {
        let x: u64 = a[i - 1];
        let y: u64 = b[i - 1];
        proof {
            let pa = a@.take(i as int);
            let pb = b@.take(i as int);
            assert(pa.drop_last() =~= a@.take(i - 1));
            assert(pb.drop_last() =~= b@.take(i - 1));
            assert(pa.last() == x && pb.last() == y);
            lemma_value_bound(a@.take(i - 1));
            lemma_value_bound(b@.take(i - 1));
            let w = weight((i - 1) as nat);
            lemma_weight_positive((i - 1) as nat);
            if x < y {
                assert(x * w + w <= y * w) by (nonlinear_arith)
                    requires
                        x < y,
                        w > 0,
                ;
            } else if x > y {
                assert(y * w + w <= x * w) by (nonlinear_arith)
                    requires
                        y < x,
                        w > 0,
                ;
            }
        }
        if x < y {
            return true;
        }
        if x > y {
            return false;
        }
        i -= 1;
    }
    proof {
        assert(a@.take(0) =~= Seq::<u64>::empty());
        assert(b@.take(0) =~= Seq::<u64>::empty());
    }
    false
}

} // verus!
