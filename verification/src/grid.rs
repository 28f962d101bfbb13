//! Row-major pixel grids: the pixel in column `px` of row `py` of a grid
//! that is `width` pixels wide has the index `py * width + px`.

use vstd::prelude::*;

verus! {

/// The row and the column of a pixel index lie inside the buffer, and give
/// the index back.
pub proof fn lemma_pixel_of_index(index: int, width: int, height: int)
    requires
        width > 0,
        0 <= index < width * height,
    ensures
        0 <= index % width < width,
        0 <= index / width < height,
        (index / width) * width + index % width == index,
{
    vstd::arithmetic::div_mod::lemma_fundamental_div_mod(index, width);
    vstd::arithmetic::div_mod::lemma_mod_bound(index, width);
    vstd::arithmetic::div_mod::lemma_div_pos_is_pos(index, width);
    let q = index / width;
    assert(q < height) by (nonlinear_arith)
        requires
            index == width * q + index % width,
            0 <= index % width,
            index < width * height,
            width > 0,
    ;
    assert(width * q == q * width) by (nonlinear_arith);
}

/// The index of a pixel inside the buffer lies inside the buffer, and gives
/// the row and the column back.
pub proof fn lemma_index_of_pixel(px: int, py: int, width: int, height: int)
    requires
        0 <= px < width,
        0 <= py < height,
    ensures
        0 <= py * width <= py * width + px < width * height,
        (py * width + px) / width == py,
        (py * width + px) % width == px,
{
    assert(0 <= py * width && py * width + width <= width * height) by (nonlinear_arith)
        requires
            0 <= py < height,
            width > 0,
    ;
    vstd::arithmetic::div_mod::lemma_fundamental_div_mod_converse(
        py * width + px,
        width,
        py,
        px,
    );
}

/// Whether the pixel at `index` of a grid `width` pixels wide lies in the
/// columns `x0..x1` of the rows `y0..y1`.
pub open spec fn in_rect(index: int, width: int, x0: int, x1: int, y0: int, y1: int) -> bool {
    &&& x0 <= index % width < x1
    &&& y0 <= index / width < y1
}

/// Fills the columns `x0..x1` of the rows `y0..y1` with `color`.
pub fn fill_rect(
    buffer: &mut [u32],
    width: usize,
    height: usize,
    x0: usize,
    x1: usize,
    y0: usize,
    y1: usize,
    color: u32,
)
    requires
        x0 <= x1 <= width,
        y0 <= y1 <= height,
        old(buffer)@.len() == height * width,
    ensures
        final(buffer)@.len() == old(buffer)@.len(),
        forall|i: int|
            0 <= i < old(buffer)@.len() ==> #[trigger] final(buffer)@[i] == (if in_rect(
                i,
                width as int,
                x0 as int,
                x1 as int,
                y0 as int,
                y1 as int,
            ) {
                color
            } else {
                old(buffer)@[i]
            }),
{
    let total: usize = buffer.len();
    let mut y: usize = y0;
    while y < y1
        invariant
            x0 <= x1 <= width,
            y0 <= y <= y1 <= height,
            total == height * width,
            buffer@.len() == total,
            old(buffer)@.len() == total,
            forall|i: int|
                0 <= i < total ==> #[trigger] buffer@[i] == (if in_rect(
                    i,
                    width as int,
                    x0 as int,
                    x1 as int,
                    y0 as int,
                    y as int,
                ) {
                    color
                } else {
                    old(buffer)@[i]
                }),
        decreases y1 - y,
    {
        let mut x: usize = x0;
        while x < x1
            invariant
                x0 <= x <= x1 <= width,
                y0 <= y < y1 <= height,
                total == height * width,
                buffer@.len() == total,
                old(buffer)@.len() == total,
                forall|i: int|
                    0 <= i < total ==> #[trigger] buffer@[i] == (if in_rect(
                        i,
                        width as int,
                        x0 as int,
                        x1 as int,
                        y0 as int,
                        y as int,
                    ) || in_rect(i, width as int, x0 as int, x as int, y as int, y + 1) {
                        color
                    } else {
                        old(buffer)@[i]
                    }),
            decreases x1 - x,
        {
            proof {
                lemma_index_of_pixel(x as int, y as int, width as int, height as int);
                assert(width * height == height * width) by (nonlinear_arith);
            }
            let target: usize = y * width + x;
            let ghost before = buffer@;
            buffer[target] = color;
            proof {
                assert forall|i: int| 0 <= i < total implies #[trigger] buffer@[i] == (if in_rect(
                    i,
                    width as int,
                    x0 as int,
                    x1 as int,
                    y0 as int,
                    y as int,
                ) || in_rect(i, width as int, x0 as int, x + 1, y as int, y + 1) {
                    color
                } else {
                    old(buffer)@[i]
                }) by {
                    lemma_pixel_of_index(i, width as int, height as int);
                    if i != target {
                        assert(buffer@[i] == before[i]);
                        assert(!(i % (width as int) == x && i / (width as int) == y));
                    }
                }
            }
            x += 1;
        }
        y += 1;
    }
}

} // verus!
