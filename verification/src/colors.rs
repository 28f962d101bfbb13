//! Colour gradient and the mapping from iteration counts to packed RGB.
//!
//! The gradient is piecewise linear between ten control points.  All of the
//! arithmetic is exact: a colour channel is the integer part of a rational
//! number, so the mapping is the same on every machine.

use vstd::prelude::*;

verus! {

/// Colour of the points that never escape.
pub const INTERIOR_COLOR: u32 = 0x000000;

/// Control points of the gradient as (red, green, blue), each channel in
/// tenths of full intensity, from the earliest escape to the latest.
pub const GRADIENT: [(u8, u8, u8); 10] = [
    (0, 0, 2),
    (1, 2, 5),
    (2, 5, 8),
    (5, 8, 9),
    (10, 10, 8),
    (10, 8, 3),
    (10, 5, 1),
    (8, 2, 1),
    (5, 0, 2),
    (0, 0, 0),
];

/// Index of the gradient segment that `iter` falls into: the integer part of
/// `9 * iter / max_iter`.
pub open spec fn segment_of(iter: int, max_iter: int) -> int {
    (9 * iter) / max_iter
}

/// Position of `iter` inside its segment, as a numerator over `max_iter`.
pub open spec fn segment_offset(iter: int, max_iter: int) -> int {
    9 * iter - segment_of(iter, max_iter) * max_iter
}

/// One channel, 0..=255, interpolated between the control values `from` and
/// `to` (tenths) at `offset / max_iter` of the way: the integer part of
/// `255 * (from + (to - from) * offset / max_iter) / 10`.
pub open spec fn blend(from: int, to: int, offset: int, max_iter: int) -> int {
    (255 * (from * max_iter + (to - from) * offset)) / (10 * max_iter)
}

/// Packs three channels as `0xRRGGBB`.
pub open spec fn pack_rgb(r: int, g: int, b: int) -> int {
    r * 65536 + g * 256 + b
}

/// The colour of an iteration count, as a mathematical function.
pub open spec fn color_of(iter: int, max_iter: int) -> int {
    if iter >= max_iter {
        INTERIOR_COLOR as int
    } else {
        let seg = segment_of(iter, max_iter);
        let off = segment_offset(iter, max_iter);
        pack_rgb(
            blend(GRADIENT[seg].0 as int, GRADIENT[seg + 1].0 as int, off, max_iter),
            blend(GRADIENT[seg].1 as int, GRADIENT[seg + 1].1 as int, off, max_iter),
            blend(GRADIENT[seg].2 as int, GRADIENT[seg + 1].2 as int, off, max_iter),
        )
    }
}

/// An escaping iteration count lies in one of the nine segments, at an
/// offset below `max_iter`.
pub proof fn lemma_segment_bounds(iter: int, max_iter: int)
    requires
        0 <= iter < max_iter,
    ensures
        0 <= segment_of(iter, max_iter) <= 8,
        0 <= segment_offset(iter, max_iter) < max_iter,
        segment_offset(iter, max_iter) == (9 * iter) % max_iter,
{
    let n = 9 * iter;
    vstd::arithmetic::div_mod::lemma_fundamental_div_mod(n, max_iter);
    vstd::arithmetic::div_mod::lemma_mod_bound(n, max_iter);
    vstd::arithmetic::div_mod::lemma_div_pos_is_pos(n, max_iter);
    let q = n / max_iter;
    assert(q <= 8) by (nonlinear_arith)
        requires
            n == max_iter * q + n % max_iter,
            0 <= n % max_iter,
            n < 9 * max_iter,
            max_iter > 0,
    ;
    assert(max_iter * q == q * max_iter) by (nonlinear_arith);
}

/// A blended channel stays between 0 and 255 when both control values are
/// at most ten tenths.
pub proof fn lemma_blend_bounds(from: int, to: int, offset: int, max_iter: int)
    requires
        0 <= from <= 10,
        0 <= to <= 10,
        0 <= offset < max_iter,
    ensures
        0 <= 255 * (from * max_iter + (to - from) * offset) <= 2550 * max_iter,
        0 <= blend(from, to, offset, max_iter) <= 255,
{
    let inner = from * max_iter + (to - from) * offset;
    assert(0 <= inner <= 10 * max_iter) by (nonlinear_arith)
        requires
            inner == from * max_iter + (to - from) * offset,
            0 <= from <= 10,
            0 <= to <= 10,
            0 <= offset < max_iter,
    ;
    let num = 255 * inner;
    let den = 10 * max_iter;
    vstd::arithmetic::div_mod::lemma_div_pos_is_pos(num, den);
    vstd::arithmetic::div_mod::lemma_fundamental_div_mod(num, den);
    vstd::arithmetic::div_mod::lemma_mod_bound(num, den);
    assert(num / den <= 255) by (nonlinear_arith)
        requires
            num == den * (num / den) + num % den,
            0 <= num % den,
            num <= 255 * den,
            den > 0,
    ;
}

fn blend_channel(from: u8, to: u8, offset: u64, max_iter: u64) -> (c: u32)
    requires
        from <= 10,
        to <= 10,
        offset < max_iter,
        max_iter <= u32::MAX,
    ensures
        c == blend(from as int, to as int, offset as int, max_iter as int),
        c <= 255,
{
    proof {
        lemma_blend_bounds(from as int, to as int, offset as int, max_iter as int);
    }
    assert(from * max_iter <= 10 * max_iter) by (nonlinear_arith)
        requires
            from <= 10,
            max_iter >= 0,
    ;
    let base: u64 = (from as u64) * max_iter;
    let num: u64 = if to >= from {
        let gap: u64 = (to - from) as u64;
        assert(gap * offset <= 10 * offset) by (nonlinear_arith)
            requires
                gap <= 10,
                offset >= 0,
        ;
        255 * (base + gap * offset)
    } else {
        let gap: u64 = (from - to) as u64;
        assert(gap * offset <= 10 * offset) by (nonlinear_arith)
            requires
                gap <= 10,
                offset >= 0,
        ;
        assert((to - from) * offset == -(gap * offset)) by (nonlinear_arith)
            requires
                gap == from - to,
        ;
        255 * (base - gap * offset)
    };
    (num / (10 * max_iter)) as u32
}

/// Maps an iteration count to a packed `0xRRGGBB` colour.
///
/// Counts that reach `max_iter` get the interior colour.  Any other count is
/// placed on the gradient at `iter / max_iter` of its length and takes the
/// colour interpolated linearly between the two neighbouring control points.
pub fn iter_to_color_u32(iter: u32, max_iter: u32) -> (color: u32)
    ensures
        color == color_of(iter as int, max_iter as int),
        iter >= max_iter ==> color == INTERIOR_COLOR,
        color <= 0xFFFFFF,
{
    if iter >= max_iter {
        return INTERIOR_COLOR;
    }
    proof {
        lemma_segment_bounds(iter as int, max_iter as int);
    }
    let scaled: u64 = 9 * (iter as u64);
    let seg: usize = (scaled / (max_iter as u64)) as usize;
    let off: u64 = scaled % (max_iter as u64);
    let (r1, g1, b1) = GRADIENT[seg];
    let (r2, g2, b2) = GRADIENT[seg + 1];
    let r: u32 = blend_channel(r1, r2, off, max_iter as u64);
    let g: u32 = blend_channel(g1, g2, off, max_iter as u64);
    let b: u32 = blend_channel(b1, b2, off, max_iter as u64);
    assert((r << 16) | (g << 8) | b == r * 65536 + g * 256 + b && (r << 16) | (g << 8) | b
        <= 0xFFFFFF) by (bit_vector)
        requires
            r <= 255,
            g <= 255,
            b <= 255,
    ;
    (r << 16) | (g << 8) | b
}

/// The red, green and blue channel of a packed colour; bits above the
/// 24th are ignored.
pub open spec fn channels_of(pixel: int) -> (int, int, int) {
    ((pixel / 65536) % 256, (pixel / 256) % 256, pixel % 256)
}

/// Splits a packed `0xRRGGBB` colour into its channels.
pub fn unpack_rgb(pixel: u32) -> (rgb: (u8, u8, u8))
    ensures
        (rgb.0 as int, rgb.1 as int, rgb.2 as int) == channels_of(pixel as int),
        pixel <= 0xFFFFFF ==> pack_rgb(rgb.0 as int, rgb.1 as int, rgb.2 as int) == pixel,
{
    let r: u32 = (pixel >> 16) & 0xFF;
    let g: u32 = (pixel >> 8) & 0xFF;
    let b: u32 = pixel & 0xFF;
    assert(r == (pixel / 65536) % 256 && g == (pixel / 256) % 256 && b == pixel % 256) by (bit_vector)
        requires
            r == (pixel >> 16) & 0xFF,
            g == (pixel >> 8) & 0xFF,
            b == pixel & 0xFF,
    ;
    assert(pixel <= 0xFFFFFF ==> r * 65536 + g * 256 + b == pixel) by (bit_vector)
        requires
            r == (pixel >> 16) & 0xFF,
            g == (pixel >> 8) & 0xFF,
            b == pixel & 0xFF,
    ;
    (r as u8, g as u8, b as u8)
}

/// The bytes of a buffer of packed colours: red, green and blue of each
/// pixel in turn.
pub fn to_rgb_bytes(buffer: &Vec<u32>) -> (bytes: Vec<u8>)
    ensures
        bytes@.len() == 3 * buffer@.len(),
        forall|i: int|
            0 <= i < buffer@.len() ==> {
                &&& bytes@[3 * i] == channels_of(#[trigger] buffer@[i] as int).0
                &&& bytes@[3 * i + 1] == channels_of(buffer@[i] as int).1
                &&& bytes@[3 * i + 2] == channels_of(buffer@[i] as int).2
            },
{
    let mut bytes: Vec<u8> = Vec::new();
    let mut i: usize = 0;
    while i < buffer.len()
        invariant
            0 <= i <= buffer@.len(),
            bytes@.len() == 3 * i,
            forall|j: int|
                0 <= j < i ==> {
                    &&& bytes@[3 * j] == channels_of(#[trigger] buffer@[j] as int).0
                    &&& bytes@[3 * j + 1] == channels_of(buffer@[j] as int).1
                    &&& bytes@[3 * j + 2] == channels_of(buffer@[j] as int).2
                },
        decreases buffer@.len() - i,
    {
        let (r, g, b) = unpack_rgb(buffer[i]);
        bytes.push(r);
        bytes.push(g);
        bytes.push(b);
        i += 1;
    }
    bytes
}

} // verus!
