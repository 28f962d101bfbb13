//! The escape-time kernel on fixed-point coordinates.
//!
//! The orbit of a point `c` starts at zero and follows `z -> z * z + c`.  The
//! kernel reports the index of the first step after which the orbit has left
//! the disc of radius 2, or the iteration limit if it is still inside.

use vstd::prelude::*;
use crate::fixed::{lemma_div_toward_zero_negate, rescale, ONE};

verus! {

/// Four times the square of 1.0: the bailout for an exact squared magnitude.
pub open spec fn bailout() -> int {
    4 * (ONE as int) * (ONE as int)
}

/// Whether `z` lies outside the closed disc of radius 2.  The squared
/// magnitude is taken exactly, without rounding.
pub open spec fn escaped(z: (int, int)) -> bool {
    z.0 * z.0 + z.1 * z.1 > bailout()
}

/// One step of the quadratic map, `z * z + c`; each component of the square
/// is rounded toward zero once.
pub open spec fn step(z: (int, int), c: (int, int)) -> (int, int) {
    (rescale(z.0 * z.0 - z.1 * z.1) + c.0, rescale(2 * z.0 * z.1) + c.1)
}

/// The orbit of `c` after `n` steps.
pub open spec fn orbit(c: (int, int), n: nat) -> (int, int)
    decreases n,
{
    if n == 0 {
        (0, 0)
    } else {
        step(orbit(c, (n - 1) as nat), c)
    }
}

/// `t` is the escape time of `c` under the limit `max_iter`: the orbit is
/// outside the disc after step `t` and inside it after every earlier step,
/// or it is inside after each of the first `max_iter` steps and `t` is the
/// limit itself.
pub open spec fn is_escape_time(c: (int, int), max_iter: nat, t: nat) -> bool {
    &&& t <= max_iter
    &&& t < max_iter ==> escaped(orbit(c, t + 1))
    &&& forall|j: nat| j < t ==> !escaped(#[trigger] orbit(c, j + 1))
}

/// The escape time of `c` under the limit `max_iter`.
pub open spec fn escape_time(c: (int, int), max_iter: nat) -> nat {
    choose|t: nat| is_escape_time(c, max_iter, t)
}

/// A number that meets the conditions of the escape time is the escape
/// time.
pub proof fn lemma_escape_time_is(c: (int, int), max_iter: nat, t: nat)
    requires
        is_escape_time(c, max_iter, t),
    ensures
        escape_time(c, max_iter) == t,
{
    lemma_escape_time_unique(c, max_iter, t, escape_time(c, max_iter));
}

/// The escape time of a point is unique.
pub proof fn lemma_escape_time_unique(c: (int, int), max_iter: nat, s: nat, t: nat)
    requires
        is_escape_time(c, max_iter, s),
        is_escape_time(c, max_iter, t),
    ensures
        s == t,
{
    if s < t {
        assert(!escaped(orbit(c, s + 1)));
    }
    if t < s {
        assert(!escaped(orbit(c, t + 1)));
    }
}

/// A coordinate of a point inside the disc has magnitude at most 2.
proof fn lemma_inside_bounds(z: (int, int))
    requires
        !escaped(z),
    ensures
        -2 * ONE <= z.0 <= 2 * ONE,
        -2 * ONE <= z.1 <= 2 * ONE,
{
    let one = ONE as int;
    assert(z.0 * z.0 >= 0 && z.1 * z.1 >= 0) by (nonlinear_arith);
    assert(-2 * one <= z.0 <= 2 * one) by (nonlinear_arith)
        requires
            z.0 * z.0 <= 4 * one * one,
            one > 0,
    ;
    assert(-2 * one <= z.1 <= 2 * one) by (nonlinear_arith)
        requires
            z.1 * z.1 <= 4 * one * one,
            one > 0,
    ;
}

/// A point with a coordinate of magnitude above 2 is outside the disc.
proof fn lemma_far_point_escaped(c: (int, int))
    requires
        c.0 > 2 * ONE || c.0 < -2 * ONE || c.1 > 2 * ONE || c.1 < -2 * ONE,
    ensures
        escaped(c),
{
    let one = ONE as int;
    assert(c.0 * c.0 >= 0 && c.1 * c.1 >= 0) by (nonlinear_arith);
    if c.0 > 2 * one || c.0 < -2 * one {
        assert(c.0 * c.0 > 4 * one * one) by (nonlinear_arith)
            requires
                c.0 > 2 * one || c.0 < -2 * one,
                one > 0,
        ;
    } else {
        assert(c.1 * c.1 > 4 * one * one) by (nonlinear_arith)
            requires
                c.1 > 2 * one || c.1 < -2 * one,
                one > 0,
        ;
    }
}

/// The first step of every orbit leads to the point itself.
pub proof fn lemma_first_step(c: (int, int))
    ensures
        orbit(c, 1) == c,
{
    assert(orbit(c, 0) == (0int, 0int));
    assert(orbit(c, 1) == step(orbit(c, 0), c));
    assert(rescale(0) == 0);
}

/// Computes the escape time of the point `c_re + i * c_im`.
pub fn mandelbrot_iter_fast(c_re: i64, c_im: i64, max_iter: u32) -> (iter: u32)
    ensures
        is_escape_time((c_re as int, c_im as int), max_iter as nat, iter as nat),
        iter == escape_time((c_re as int, c_im as int), max_iter as nat),
{
    let ghost c = (c_re as int, c_im as int);
    let two: i64 = 2 * ONE;
    if c_re > two || c_re < -two || c_im > two || c_im < -two {
        proof {
            lemma_first_step(c);
            lemma_far_point_escaped(c);
            lemma_escape_time_is(c, max_iter as nat, 0);
        }
        return 0;
    }
    let limit: i128 = 4 * (ONE as i128) * (ONE as i128);
    proof {
        lemma_origin_fixed();
    }
    let mut z_re: i64 = 0;
    let mut z_im: i64 = 0;
    let mut i: u32 = 0;
    while i < max_iter
        invariant
            i <= max_iter,
            c == (c_re as int, c_im as int),
            -2 * ONE <= c_re <= 2 * ONE,
            -2 * ONE <= c_im <= 2 * ONE,
            limit == bailout(),
            (z_re as int, z_im as int) == orbit(c, i as nat),
            !escaped((z_re as int, z_im as int)),
            forall|j: nat| j < i ==> !escaped(#[trigger] orbit(c, j + 1)),
        decreases max_iter - i,
    {
        proof {
            lemma_inside_bounds((z_re as int, z_im as int));
        }
        let zr: i128 = z_re as i128;
        let zi: i128 = z_im as i128;
        let ghost one = ONE as int;
        assert(0 <= zr * zr <= 4 * one * one && 0 <= zi * zi <= 4 * one * one && -4 * one * one
            <= zr * zi <= 4 * one * one) by (nonlinear_arith)
            requires
                -2 * one <= zr <= 2 * one,
                -2 * one <= zi <= 2 * one,
                one > 0,
        ;
        let next_re: i128 = (zr * zr - zi * zi) / (ONE as i128) + (c_re as i128);
        assert(2 * zr * zi == 2 * (zr * zi)) by (nonlinear_arith);
        let next_im: i128 = (2 * zr * zi) / (ONE as i128) + (c_im as i128);
        assert((next_re as int, next_im as int) == step((z_re as int, z_im as int), c));
        assert(orbit(c, (i + 1) as nat) == step(orbit(c, i as nat), c));
        assert(-6 * one <= next_re <= 6 * one && -10 * one <= next_im <= 10 * one);
        assert(0 <= next_re * next_re <= 36 * one * one && 0 <= next_im * next_im <= 100 * one
            * one) by (nonlinear_arith)
            requires
                -6 * one <= next_re <= 6 * one,
                -10 * one <= next_im <= 10 * one,
                one > 0,
        ;
        if next_re * next_re + next_im * next_im > limit {
            proof {
                lemma_escape_time_is(c, max_iter as nat, i as nat);
            }
            return i;
        }
        z_re = next_re as i64;
        z_im = next_im as i64;
        i += 1;
    }
    proof {
        lemma_escape_time_is(c, max_iter as nat, max_iter as nat);
    }
    max_iter
}

/// Every point has an escape time.
pub proof fn lemma_escape_time_exists(c: (int, int), max_iter: nat)
    ensures
        is_escape_time(c, max_iter, escape_time(c, max_iter)),
{
    lemma_escape_search(c, max_iter, 0);
}

/// From any step that no escape comes before, the search for the escape
/// time succeeds.
proof fn lemma_escape_search(c: (int, int), max_iter: nat, from: nat)
    requires
        from <= max_iter,
        forall|j: nat| j < from ==> !escaped(#[trigger] orbit(c, j + 1)),
    ensures
        exists|t: nat| is_escape_time(c, max_iter, t),
    decreases max_iter - from,
{
    if from == max_iter {
        assert(is_escape_time(c, max_iter, from));
    } else if escaped(orbit(c, from + 1)) {
        assert(is_escape_time(c, max_iter, from));
    } else {
        lemma_escape_search(c, max_iter, from + 1);
    }
}

/// Every point outside the disc of radius 2 escapes with the first step:
/// its escape time is 0 whenever the limit allows a step at all.
pub proof fn lemma_outside_escapes_at_once(c: (int, int), max_iter: nat)
    requires
        escaped(c),
        max_iter > 0,
    ensures
        escape_time(c, max_iter) == 0,
{
    lemma_escape_time_exists(c, max_iter);
    lemma_first_step(c);
    if escape_time(c, max_iter) > 0 {
        assert(!escaped(orbit(c, 0 + 1)));
    }
}

/// An escaping point is reported below the limit, and a point reported
/// below the limit has left the disc at that step.
pub proof fn lemma_escape_time_below_limit(c: (int, int), max_iter: nat)
    ensures
        escape_time(c, max_iter) <= max_iter,
        escape_time(c, max_iter) < max_iter <==> exists|j: nat|
            j < max_iter && escaped(#[trigger] orbit(c, j + 1)),
{
    lemma_escape_time_exists(c, max_iter);
    let t = escape_time(c, max_iter);
    if t < max_iter {
        assert(escaped(orbit(c, t + 1)));
    }
}

/// A lower limit cuts the escape time short and changes nothing else: under
/// the limit `lower` a point has its escape time under `higher`, or `lower`
/// if that is less.
pub proof fn lemma_limit_cuts_escape_time(c: (int, int), lower: nat, higher: nat)
    requires
        lower <= higher,
    ensures
        escape_time(c, lower) == (if escape_time(c, higher) < lower {
            escape_time(c, higher)
        } else {
            lower
        }),
{
    lemma_escape_time_exists(c, higher);
    let t = escape_time(c, higher);
    if t < lower {
        assert(escaped(orbit(c, t + 1)));
        lemma_escape_time_is(c, lower, t);
    } else {
        assert forall|j: nat| j < lower implies !escaped(#[trigger] orbit(c, j + 1)) by {
            assert(j < t);
        }
        lemma_escape_time_is(c, lower, lower);
    }
}

/// The origin never escapes: its escape time is the limit.
pub proof fn lemma_origin_is_interior(max_iter: nat)
    ensures
        escape_time((0, 0), max_iter) == max_iter,
{
    lemma_escape_time_exists((0, 0), max_iter);
    let t = escape_time((0, 0), max_iter);
    if t < max_iter {
        lemma_origin_orbit(t + 1);
        lemma_origin_fixed();
    }
}

/// A point and its complex conjugate have the same escape time.
pub proof fn lemma_conjugate_escape_time(c: (int, int), max_iter: nat)
    ensures
        escape_time((c.0, -c.1), max_iter) == escape_time(c, max_iter),
{
    let d = (c.0, -c.1);
    lemma_escape_time_exists(c, max_iter);
    lemma_escape_time_exists(d, max_iter);
    let t = escape_time(c, max_iter);
    assert forall|n: nat| escaped(orbit(d, n)) == escaped(#[trigger] orbit(c, n)) by {
        lemma_conjugate_orbit(c, n);
        let z = orbit(c, n);
        assert((-z.1) * (-z.1) == z.1 * z.1) by (nonlinear_arith);
    }
    assert(is_escape_time(d, max_iter, t)) by {
        if t < max_iter {
            assert(escaped(orbit(c, t + 1)));
        }
        assert forall|j: nat| j < t implies !escaped(#[trigger] orbit(d, j + 1)) by {
            assert(!escaped(orbit(c, j + 1)));
        }
    }
    lemma_escape_time_unique(d, max_iter, t, escape_time(d, max_iter));
}

/// Zero lies inside the disc, and the map of the origin leaves it in place.
proof fn lemma_origin_fixed()
    ensures
        !escaped((0, 0)),
        step((0, 0), (0, 0)) == (0int, 0int),
{
    let zero: int = 0;
    assert(zero * zero == 0) by (nonlinear_arith)
        requires
            zero == 0,
    ;
    assert(2 * zero * zero == 0) by (nonlinear_arith)
        requires
            zero == 0,
    ;
    assert(bailout() >= 0) by (nonlinear_arith);
    assert(rescale(0) == 0);
}

proof fn lemma_origin_orbit(n: nat)
    ensures
        orbit((0, 0), n) == (0int, 0int),
    decreases n,
{
    if n > 0 {
        lemma_origin_orbit((n - 1) as nat);
        lemma_origin_fixed();
    }
}

/// The orbit of the complex conjugate of a point is the conjugate of the
/// point's orbit, so both have the same escape time.
pub proof fn lemma_conjugate_orbit(c: (int, int), n: nat)
    ensures
        orbit((c.0, -c.1), n) == (orbit(c, n).0, -orbit(c, n).1),
    decreases n,
{
    if n > 0 {
        lemma_conjugate_orbit(c, (n - 1) as nat);
        let z = orbit(c, (n - 1) as nat);
        assert((-z.1) * (-z.1) == z.1 * z.1) by (nonlinear_arith);
        assert(2 * z.0 * (-z.1) == -(2 * z.0 * z.1)) by (nonlinear_arith);
        lemma_div_toward_zero_negate(2 * z.0 * z.1, ONE as int);
    }
}

} // verus!
