//! The precision policy: which backend renders a view, and with how many
//! bits.
//!
//! Both answers depend on the zoom factor alone.  The zoom factor is an exact
//! ratio, so the policy never rounds: a view that is one unit narrower than
//! a threshold allows is on the far side of it.

use vstd::prelude::*;
use crate::power::{ipow, lemma_ipow_monotonic, lemma_ipow_of_product, lemma_ipow_positive,
    lemma_next_power_of_two, lemma_next_power_of_two_monotonic, lemma_pow4_monotonic,
    lemma_quadruplings_least, lemma_weight_is_pow4, next_power_of_two, quadruplings,
    round_up_to_power_of_two, seventh_power};
use crate::wide::{less_than, lemma_value_bound, lemma_weight_monotonic, lemma_weight_positive,
    limb_base, mul_small, value_of, weight};

verus! {

/// Zoom factor above which a graphics device no longer resolves the view.
pub const LOW_THRESHOLD: u64 = 1_000_000;

/// Zoom factor above which fixed-width arithmetic no longer resolves the
/// view.
pub const HIGH_THRESHOLD: u64 = 10_000_000_000_000;

/// Bit width of a fresh view, and the least that a view ever has.
pub const INITIAL_PRECISION: u32 = 128;

/// Largest bit width that the policy hands out.  A view that would need
/// more is rendered with this many bits, at reduced resolution of detail.
pub const MAX_PRECISION: u32 = 4096;

/// Bits granted on top of those that the zoom factor calls for.
pub const PRECISION_MARGIN: u32 = 64;

/// How a frame is computed.
#[derive(Clone, Copy, Debug, PartialEq, Eq, Structural)]
pub enum ComputeMode {
    /// Single precision on a graphics device.
    Gpu,
    /// Fixed-width arithmetic on the processor.
    CpuF64,
    /// Arbitrary precision on the processor.
    CpuHighPrecision,
}

impl ComputeMode {
    /// The short name of the mode, as a window title shows it.
    pub open spec fn spec_title(&self) -> Seq<char> {
        match self {
            ComputeMode::Gpu => "GPU"@,
            ComputeMode::CpuF64 => "CPU"@,
            ComputeMode::CpuHighPrecision => "HP"@,
        }
    }

    /// The short name of the mode.
    pub fn title(&self) -> (name: &'static str)
        ensures
            name@ == self.spec_title(),
    {
        match self {
            ComputeMode::Gpu => "GPU",
            ComputeMode::CpuF64 => "CPU",
            ComputeMode::CpuHighPrecision => "HP",
        }
    }
}

/// A zoom factor: the reference width of the plane over the width in view.
#[derive(Clone, Copy, Debug, PartialEq, Eq, Structural)]
pub struct ZoomFactor {
    pub numerator: u64,
    pub denominator: u64,
}

impl ZoomFactor {
    /// A zoom factor has a positive denominator.
    pub open spec fn wf(&self) -> bool {
        self.denominator > 0
    }

    /// Whether the zoom factor is greater than the whole number `threshold`.
    pub open spec fn exceeds(&self, threshold: int) -> bool {
        self.numerator > threshold * self.denominator
    }

    /// Tells whether the zoom factor is greater than `threshold`.
    pub fn is_above(&self, threshold: u64) -> (r: bool)
        ensures
            r == self.exceeds(threshold as int),
    {
        assert(threshold * self.denominator <= 0xFFFF_FFFF_FFFF_FFFF * 0xFFFF_FFFF_FFFF_FFFF)
            by (nonlinear_arith)
            requires
                0 <= threshold <= 0xFFFF_FFFF_FFFF_FFFF,
                0 <= self.denominator <= 0xFFFF_FFFF_FFFF_FFFF,
        ;
        (self.numerator as u128) > (threshold as u128) * (self.denominator as u128)
    }
}

/// The mode of a zoom factor.  Without a graphics device the processor takes
/// over the shallow views too, which leaves two modes.
pub open spec fn mode_for(zoom: ZoomFactor, gpu_available: bool) -> ComputeMode {
    if zoom.exceeds(HIGH_THRESHOLD as int) {
        ComputeMode::CpuHighPrecision
    } else if zoom.exceeds(LOW_THRESHOLD as int) || !gpu_available {
        ComputeMode::CpuF64
    } else {
        ComputeMode::Gpu
    }
}

/// The place of a mode in the order from the fastest to the most precise.
pub open spec fn mode_rank(mode: ComputeMode) -> int {
    match mode {
        ComputeMode::Gpu => 0,
        ComputeMode::CpuF64 => 1,
        ComputeMode::CpuHighPrecision => 2,
    }
}

/// Chooses the mode for a zoom factor.
pub fn select_mode(zoom: ZoomFactor, gpu_available: bool) -> (mode: ComputeMode)
    ensures
        mode == mode_for(zoom, gpu_available),
{
    if zoom.is_above(HIGH_THRESHOLD) {
        ComputeMode::CpuHighPrecision
    } else if zoom.is_above(LOW_THRESHOLD) || !gpu_available {
        ComputeMode::CpuF64
    } else {
        ComputeMode::Gpu
    }
}

/// The bits that a zoom factor calls for before the margin: the least whole
/// number `k` with `k >= 3.5 * log2(zoom)`, and 0 for a zoom factor below 1.
/// In exact terms, the least `k` with `4^k * denominator^7 >= numerator^7`.
pub open spec fn log_term(zoom: ZoomFactor) -> nat {
    quadruplings(ipow(zoom.numerator as int, 7), ipow(zoom.denominator as int, 7))
}

/// The bit width that a zoom factor requires: the log term plus the margin,
/// rounded up to a power of two and capped at the maximum.
pub open spec fn required_bits(zoom: ZoomFactor) -> int {
    let rounded = next_power_of_two(log_term(zoom) + PRECISION_MARGIN);
    if rounded <= MAX_PRECISION {
        rounded
    } else {
        MAX_PRECISION as int
    }
}

/// The bit width of a view after its zoom factor became `zoom`: never less
/// than before, and raised to what the zoom factor requires if that is more,
/// unless the width is at its maximum already.
pub open spec fn escalated(current: int, zoom: ZoomFactor) -> int {
    if log_term(zoom) + PRECISION_MARGIN > current && current < MAX_PRECISION {
        required_bits(zoom)
    } else {
        current
    }
}

/// The bit width of a view after a change of its bounds: escalated where the
/// zoom factor is past the high threshold, and untouched below it.
pub open spec fn precision_after(current: int, zoom: ZoomFactor) -> int {
    if zoom.exceeds(HIGH_THRESHOLD as int) {
        escalated(current, zoom)
    } else {
        current
    }
}

/// Computes the log term of a zoom factor.
pub fn zoom_log_term(zoom: ZoomFactor) -> (k: u32)
    requires
        zoom.wf(),
    ensures
        k == log_term(zoom),
        k <= 224,
{
    let target = seventh_power(zoom.numerator);
    let mut reach = seventh_power(zoom.denominator);
    let mut k: u32 = 0;
    let ghost goal = ipow(zoom.numerator as int, 7);
    let ghost start = ipow(zoom.denominator as int, 7);
    proof {
        lemma_ipow_positive(zoom.denominator as int, 7);
        assert(ipow(4, 0) * start == start) by (nonlinear_arith)
            requires
                ipow(4, 0) == 1,
        ;
    }
    while less_than(&reach, &target)
        invariant
            target@.len() == 8,
            reach@.len() == 8,
            value_of(target@) == goal,
            goal < weight(7),
            start >= 1,
            value_of(reach@) == ipow(4, k as nat) * start,
            value_of(reach@) >= 1,
            k + quadruplings(goal, value_of(reach@)) == quadruplings(goal, start),
            k <= 224,
        decreases (if goal > value_of(reach@) { goal - value_of(reach@) } else { 0 }),
    {
        let ghost before = value_of(reach@);
        let (product, carry) = mul_small(&reach, 4);
        proof {
            lemma_weight_positive(8);
            lemma_weight_monotonic(7, 8);
            lemma_value_bound(product@);
            assert(weight(8) == weight(7) * limb_base());
            assert(before * 4 < weight(8));
            assert(carry == 0) by (nonlinear_arith)
                requires
                    value_of(product@) + carry * weight(8) == before * 4,
                    before * 4 < weight(8),
                    value_of(product@) >= 0,
                    carry >= 0,
                    weight(8) > 0,
            ;
            assert(0 * weight(8) == 0) by (nonlinear_arith);
            assert(ipow(4, (k + 1) as nat) == 4 * ipow(4, k as nat));
            assert(before * 4 == ipow(4, (k + 1) as nat) * start) by (nonlinear_arith)
                requires
                    before == ipow(4, k as nat) * start,
                    ipow(4, (k + 1) as nat) == 4 * ipow(4, k as nat),
            ;
            assert(quadruplings(goal, before) == 1 + quadruplings(goal, 4 * before));
            lemma_weight_is_pow4(7);
            if k >= 224 {
                lemma_pow4_monotonic(224, k as nat);
                assert(ipow(4, k as nat) * start >= ipow(4, k as nat)) by (nonlinear_arith)
                    requires
                        start >= 1,
                        ipow(4, k as nat) >= 1,
                ;
                assert(false);
            }
        }
        reach = product;
        k += 1;
    }
    proof {
        assert(quadruplings(goal, value_of(reach@)) == 0);
    }
    k
}

/// Computes the bit width that a zoom factor requires.
pub fn required_precision(zoom: ZoomFactor) -> (bits: u32)
    requires
        zoom.wf(),
    ensures
        bits == required_bits(zoom),
        1 <= bits <= MAX_PRECISION,
{
    let wanted: u32 = zoom_log_term(zoom) + PRECISION_MARGIN;
    let rounded: u32 = round_up_to_power_of_two(wanted);
    proof {
        lemma_next_power_of_two(wanted as int);
    }
    if rounded <= MAX_PRECISION {
        rounded
    } else {
        MAX_PRECISION
    }
}

/// Computes the bit width of a view whose zoom factor became `zoom`.
///
/// The width never decreases: it stays, or rises to what the zoom factor
/// requires.
pub fn escalate(current: u32, zoom: ZoomFactor) -> (bits: u32)
    requires
        zoom.wf(),
    ensures
        bits == escalated(current as int, zoom),
        bits >= current,
        current <= MAX_PRECISION ==> bits <= MAX_PRECISION,
{
    let wanted: u32 = zoom_log_term(zoom) + PRECISION_MARGIN;
    if wanted > current && current < MAX_PRECISION {
        proof {
            lemma_next_power_of_two(wanted as int);
        }
        required_precision(zoom)
    } else {
        current
    }
}

/// Computes the bit width of a view after a change of its bounds.
pub fn update_precision(current: u32, zoom: ZoomFactor) -> (bits: u32)
    requires
        zoom.wf(),
    ensures
        bits == precision_after(current as int, zoom),
        bits >= current,
        current <= MAX_PRECISION ==> bits <= MAX_PRECISION,
{
    if zoom.is_above(HIGH_THRESHOLD) {
        escalate(current, zoom)
    } else {
        current
    }
}

/// A greater zoom factor calls for at least as many bits: the log term,
/// and with it the required bit width, grows with the zoom factor.
pub proof fn lemma_required_bits_monotonic(a: ZoomFactor, b: ZoomFactor)
    requires
        a.wf(),
        b.wf(),
        a.numerator * b.denominator <= b.numerator * a.denominator,
    ensures
        log_term(a) <= log_term(b),
        required_bits(a) <= required_bits(b),
{
    let an = a.numerator as int;
    let ad = a.denominator as int;
    let bn = b.numerator as int;
    let bd = b.denominator as int;
    let k = log_term(b);
    lemma_ipow_positive(ad, 7);
    lemma_ipow_positive(bd, 7);
    lemma_quadruplings_least(ipow(bn, 7), ipow(bd, 7));
    lemma_quadruplings_least(ipow(an, 7), ipow(ad, 7));
    assert(0 <= an * bd) by (nonlinear_arith)
        requires
            an >= 0,
            bd >= 0,
    ;
    lemma_ipow_monotonic(an * bd, bn * ad, 7);
    lemma_ipow_of_product(an, bd, 7);
    lemma_ipow_of_product(bn, ad, 7);
    let a7 = ipow(an, 7);
    let ad7 = ipow(ad, 7);
    let b7 = ipow(bn, 7);
    let bd7 = ipow(bd, 7);
    let p = ipow(4, k);
    assert(p * ad7 >= a7) by (nonlinear_arith)
        requires
            p * bd7 >= b7,
            a7 * bd7 <= b7 * ad7,
            ad7 >= 1,
            bd7 >= 1,
    ;
    if log_term(a) > k {
        assert(ipow(4, k) * ad7 < a7);
    }
    lemma_next_power_of_two_monotonic(
        log_term(a) + PRECISION_MARGIN,
        log_term(b) + PRECISION_MARGIN,
    );
}

/// The policy depends on the zoom factor alone: two ratios of the same
/// value have the same mode and require the same bit width.
pub proof fn lemma_policy_is_function_of_zoom(a: ZoomFactor, b: ZoomFactor, gpu_available: bool)
    requires
        a.wf(),
        b.wf(),
        a.numerator * b.denominator == b.numerator * a.denominator,
    ensures
        mode_for(a, gpu_available) == mode_for(b, gpu_available),
        log_term(a) == log_term(b),
        required_bits(a) == required_bits(b),
        forall|current: int| escalated(current, a) == escalated(current, b),
        forall|current: int| precision_after(current, a) == precision_after(current, b),
{
    lemma_required_bits_monotonic(a, b);
    lemma_required_bits_monotonic(b, a);
    lemma_same_zoom_same_side(a, b, LOW_THRESHOLD as int);
    lemma_same_zoom_same_side(a, b, HIGH_THRESHOLD as int);
}

/// Two ratios of the same value lie on the same side of every threshold.
pub proof fn lemma_same_zoom_same_side(a: ZoomFactor, b: ZoomFactor, threshold: int)
    requires
        a.wf(),
        b.wf(),
        a.numerator * b.denominator == b.numerator * a.denominator,
    ensures
        a.exceeds(threshold) == b.exceeds(threshold),
{
    let an = a.numerator as int;
    let ad = a.denominator as int;
    let bn = b.numerator as int;
    let bd = b.denominator as int;
    if an > threshold * ad {
        assert(bn > threshold * bd) by (nonlinear_arith)
            requires
                an > threshold * ad,
                an * bd == bn * ad,
                ad > 0,
                bd > 0,
        ;
    }
    if bn > threshold * bd {
        assert(an > threshold * ad) by (nonlinear_arith)
            requires
                bn > threshold * bd,
                an * bd == bn * ad,
                ad > 0,
                bd > 0,
        ;
    }
}

/// The bit width of a view never decreases when its bounds change, and it
/// never passes the maximum.
pub proof fn lemma_precision_never_narrows(current: int, zoom: ZoomFactor)
    requires
        current <= MAX_PRECISION,
    ensures
        current <= escalated(current, zoom) <= MAX_PRECISION,
        current <= precision_after(current, zoom) <= MAX_PRECISION,
{
    lemma_next_power_of_two(log_term(zoom) + PRECISION_MARGIN);
}

/// The log term is the least `k` with `4^k >= zoom^7`, which is to say
/// with `k >= 3.5 * log2(zoom)`.
pub proof fn lemma_log_term_is_least(zoom: ZoomFactor)
    requires
        zoom.wf(),
    ensures
        ipow(4, log_term(zoom)) * ipow(zoom.denominator as int, 7) >= ipow(
            zoom.numerator as int,
            7,
        ),
        forall|j: nat|
            j < log_term(zoom) ==> #[trigger] ipow(4, j) * ipow(zoom.denominator as int, 7) < ipow(
                zoom.numerator as int,
                7,
            ),
{
    lemma_ipow_positive(zoom.denominator as int, 7);
    lemma_quadruplings_least(ipow(zoom.numerator as int, 7), ipow(zoom.denominator as int, 7));
}

/// The required bit width is a power of two.  Unless it is the maximum, it
/// leaves the margin on top of `3.5 * log2(zoom)` bits: with `k` for the
/// required width less the margin, `4^k >= zoom^7`.
pub proof fn lemma_required_bits_suffice(zoom: ZoomFactor)
    requires
        zoom.wf(),
    ensures
        exists|e: nat| required_bits(zoom) == #[trigger] ipow(2, e),
        required_bits(zoom) == MAX_PRECISION || (required_bits(zoom) >= PRECISION_MARGIN && ipow(
            4,
            (required_bits(zoom) - PRECISION_MARGIN) as nat,
        ) * ipow(zoom.denominator as int, 7) >= ipow(zoom.numerator as int, 7)),
{
    let wanted = log_term(zoom) + PRECISION_MARGIN;
    lemma_next_power_of_two(wanted);
    lemma_log_term_is_least(zoom);
    let rounded = next_power_of_two(wanted);
    if rounded <= MAX_PRECISION {
        let k = (rounded - PRECISION_MARGIN) as nat;
        lemma_pow4_monotonic(log_term(zoom), k);
        lemma_ipow_positive(zoom.denominator as int, 7);
        assert(ipow(4, k) * ipow(zoom.denominator as int, 7) >= ipow(4, log_term(zoom)) * ipow(
            zoom.denominator as int,
            7,
        )) by (nonlinear_arith)
            requires
                ipow(4, k) >= ipow(4, log_term(zoom)),
                ipow(zoom.denominator as int, 7) >= 1,
        ;
    } else {
        assert(ipow(2, 12) == 4096) by {
            reveal_with_fuel(ipow, 13);
        }
        assert(required_bits(zoom) == ipow(2, 12));
    }
}

/// A greater zoom factor never gets a faster, less precise mode.
pub proof fn lemma_mode_monotonic(a: ZoomFactor, b: ZoomFactor, gpu_available: bool)
    requires
        a.wf(),
        b.wf(),
        a.numerator * b.denominator <= b.numerator * a.denominator,
    ensures
        mode_rank(mode_for(a, gpu_available)) <= mode_rank(mode_for(b, gpu_available)),
{
    if a.exceeds(LOW_THRESHOLD as int) {
        lemma_greater_zoom_same_side(a, b, LOW_THRESHOLD as int);
    }
    if a.exceeds(HIGH_THRESHOLD as int) {
        lemma_greater_zoom_same_side(a, b, HIGH_THRESHOLD as int);
    }
}

/// A zoom factor that is at least one that exceeds a threshold exceeds it.
pub proof fn lemma_greater_zoom_same_side(a: ZoomFactor, b: ZoomFactor, threshold: int)
    requires
        a.wf(),
        b.wf(),
        threshold >= 0,
        a.numerator * b.denominator <= b.numerator * a.denominator,
        a.exceeds(threshold),
    ensures
        b.exceeds(threshold),
{
    let an = a.numerator as int;
    let ad = a.denominator as int;
    let bn = b.numerator as int;
    let bd = b.denominator as int;
    assert(bn > threshold * bd) by (nonlinear_arith)
        requires
            an > threshold * ad,
            an * bd <= bn * ad,
            ad > 0,
            bd > 0,
            threshold >= 0,
    ;
}

/// Re-evaluating the bit width for the same zoom factor changes nothing:
/// what the policy has raised once is enough.
pub proof fn lemma_precision_settles(current: int, zoom: ZoomFactor)
    ensures
        escalated(escalated(current, zoom), zoom) == escalated(current, zoom),
        precision_after(precision_after(current, zoom), zoom) == precision_after(current, zoom),
{
    lemma_next_power_of_two(log_term(zoom) + PRECISION_MARGIN);
}

} // verus!
