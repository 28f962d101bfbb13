//! The legend beside the fractal area: a colour bar with a frame, five
//! ticks and their labels.

use vstd::prelude::*;
use crate::colors::{color_of, iter_to_color_u32};
use crate::constants::{MANDELBROT_WIDTH, MAX_ITER, WINDOW_HEIGHT, WINDOW_WIDTH};
use crate::font::{draw_text, text_covers};
use crate::grid::{fill_rect, in_rect};

verus! {

/// Colour of the legend's background.
pub const LEGEND_BACKGROUND: u32 = 0x404040;

/// Colour of the frame and the ticks.
pub const LEGEND_FRAME: u32 = 0xFFFFFF;

/// Colour of the labels.
pub const LEGEND_LABEL: u32 = 0xCCCCCC;

/// First column of the colour bar: the margin beyond the fractal area.
pub const BAR_X_START: usize = 820;

/// Column after the last one of the colour bar.
pub const BAR_X_END: usize = 840;

/// First row of the colour bar.
pub const BAR_Y_START: usize = 40;

/// Row after the last one of the colour bar.
pub const BAR_Y_END: usize = 560;

/// Number of rows of the colour bar.
pub const BAR_HEIGHT: usize = 520;

/// Length of a tick in pixels.
pub const TICK_LENGTH: usize = 5;

/// First column of the labels.
pub const LABEL_X: usize = 847;

/// The iteration count that row `y` of the colour bar shows: the limit at
/// the top, falling linearly to zero below the bottom row.
pub open spec fn bar_iteration(y: int) -> int {
    (MAX_ITER * (BAR_Y_END - y)) / (BAR_HEIGHT as int)
}

/// The row of the tick for the iteration count `value`.
pub open spec fn tick_row(value: int) -> int {
    BAR_Y_END - (value * BAR_HEIGHT) / (MAX_ITER as int)
}

/// Whether a tick is drawn in row `y`: there is one for each quarter of the
/// iteration limit.
pub open spec fn is_tick_row(y: int) -> bool {
    y == tick_row(0) || y == tick_row(64) || y == tick_row(128) || y == tick_row(192) || y
        == tick_row(256)
}

/// Whether the label of the tick for `value`, the decimal digits `digits`,
/// covers the pixel at `index`.  A label starts three rows above its tick.
pub open spec fn label_covers(value: int, digits: Seq<char>, index: int) -> bool {
    text_covers(
        WINDOW_WIDTH as int,
        WINDOW_HEIGHT as int,
        LABEL_X as int,
        tick_row(value) - 3,
        digits,
        index,
    )
}

/// Whether one of the five labels covers the pixel at `index`.
pub open spec fn any_label_covers(index: int) -> bool {
    label_covers(0, "0"@, index) || label_covers(64, "64"@, index) || label_covers(
        128,
        "128"@,
        index,
    ) || label_covers(192, "192"@, index) || label_covers(256, "256"@, index)
}

/// Whether the pixel at `index` belongs to the frame around the colour bar.
pub open spec fn on_frame(index: int) -> bool {
    let w = WINDOW_WIDTH as int;
    in_rect(index, w, BAR_X_START as int, BAR_X_END as int, BAR_Y_START - 1, BAR_Y_START as int)
        || in_rect(index, w, BAR_X_START as int, BAR_X_END as int, BAR_Y_END as int, BAR_Y_END + 1)
        || in_rect(index, w, BAR_X_START - 1, BAR_X_START as int, BAR_Y_START - 1, BAR_Y_END + 1)
        || in_rect(index, w, BAR_X_END as int, BAR_X_END + 1, BAR_Y_START - 1, BAR_Y_END + 1)
}

/// Whether the pixel at `index` belongs to a tick.
pub open spec fn on_tick(index: int) -> bool {
    let w = WINDOW_WIDTH as int;
    BAR_X_END <= index % w < BAR_X_END + TICK_LENGTH && is_tick_row(index / w)
}

/// The pixel at `index` of the window after the legend was drawn over a
/// pixel of value `before`.  What is drawn later lies on top: labels over
/// ticks, ticks over the frame, the frame over the bar, the bar over the
/// background.  Pixels of the fractal area are not touched.
pub open spec fn legend_pixel(index: int, before: u32) -> u32 {
    let w = WINDOW_WIDTH as int;
    if any_label_covers(index) {
        LEGEND_LABEL
    } else if on_tick(index) || on_frame(index) {
        LEGEND_FRAME
    } else if in_rect(
        index,
        w,
        BAR_X_START as int,
        BAR_X_END as int,
        BAR_Y_START as int,
        BAR_Y_END as int,
    ) {
        color_of(bar_iteration(index / w), MAX_ITER as int) as u32
    } else if index % w >= MANDELBROT_WIDTH {
        LEGEND_BACKGROUND
    } else {
        before
    }
}

/// Draws the tick for `value` and its label.
fn draw_tick(buffer: &mut [u32], value: usize, label: &str)
    requires
        old(buffer)@.len() == WINDOW_HEIGHT * WINDOW_WIDTH,
        value <= MAX_ITER,
    ensures
        final(buffer)@.len() == old(buffer)@.len(),
        forall|i: int|
            0 <= i < old(buffer)@.len() ==> #[trigger] final(buffer)@[i] == (if label_covers(
                value as int,
                label@,
                i,
            ) {
                LEGEND_LABEL
            } else if BAR_X_END <= i % (WINDOW_WIDTH as int) < BAR_X_END + TICK_LENGTH && i / (
            WINDOW_WIDTH as int) == tick_row(value as int) {
                LEGEND_FRAME
            } else {
                old(buffer)@[i]
            }),
{
    let y: usize = BAR_Y_END - value * BAR_HEIGHT / (MAX_ITER as usize);
    fill_rect(
        buffer,
        WINDOW_WIDTH,
        WINDOW_HEIGHT,
        BAR_X_END,
        BAR_X_END + TICK_LENGTH,
        y,
        y + 1,
        LEGEND_FRAME,
    );
    draw_text(buffer, WINDOW_WIDTH, WINDOW_HEIGHT, LABEL_X, y - 3, label, LEGEND_LABEL);
}

/// Draws the legend into the window buffer.
pub fn draw_colorbar(buffer: &mut [u32])
    requires
        old(buffer)@.len() == WINDOW_HEIGHT * WINDOW_WIDTH,
    ensures
        final(buffer)@.len() == old(buffer)@.len(),
        forall|i: int|
            0 <= i < old(buffer)@.len() ==> #[trigger] final(buffer)@[i] == legend_pixel(
                i,
                old(buffer)@[i],
            ),
{
    fill_rect(
        buffer,
        WINDOW_WIDTH,
        WINDOW_HEIGHT,
        MANDELBROT_WIDTH,
        WINDOW_WIDTH,
        0,
        WINDOW_HEIGHT,
        LEGEND_BACKGROUND,
    );
    let ghost with_background = buffer@;
    let mut y: usize = BAR_Y_START;
    while y < BAR_Y_END
        invariant
            BAR_Y_START <= y <= BAR_Y_END,
            buffer@.len() == WINDOW_HEIGHT * WINDOW_WIDTH,
            with_background.len() == buffer@.len(),
            forall|i: int|
                0 <= i < buffer@.len() ==> #[trigger] buffer@[i] == (if in_rect(
                    i,
                    WINDOW_WIDTH as int,
                    BAR_X_START as int,
                    BAR_X_END as int,
                    BAR_Y_START as int,
                    y as int,
                ) {
                    color_of(bar_iteration(i / (WINDOW_WIDTH as int)), MAX_ITER as int) as u32
                } else {
                    with_background[i]
                }),
        decreases BAR_Y_END - y,
    {
        let iter: u32 = ((MAX_ITER as usize) * (BAR_Y_END - y) / BAR_HEIGHT) as u32;
        let color = iter_to_color_u32(iter, MAX_ITER);
        fill_rect(buffer, WINDOW_WIDTH, WINDOW_HEIGHT, BAR_X_START, BAR_X_END, y, y + 1, color);
        y += 1;
    }
    fill_rect(
        buffer,
        WINDOW_WIDTH,
        WINDOW_HEIGHT,
        BAR_X_START,
        BAR_X_END,
        BAR_Y_START - 1,
        BAR_Y_START,
        LEGEND_FRAME,
    );
    fill_rect(
        buffer,
        WINDOW_WIDTH,
        WINDOW_HEIGHT,
        BAR_X_START,
        BAR_X_END,
        BAR_Y_END,
        BAR_Y_END + 1,
        LEGEND_FRAME,
    );
    fill_rect(
        buffer,
        WINDOW_WIDTH,
        WINDOW_HEIGHT,
        BAR_X_START - 1,
        BAR_X_START,
        BAR_Y_START - 1,
        BAR_Y_END + 1,
        LEGEND_FRAME,
    );
    fill_rect(
        buffer,
        WINDOW_WIDTH,
        WINDOW_HEIGHT,
        BAR_X_END,
        BAR_X_END + 1,
        BAR_Y_START - 1,
        BAR_Y_END + 1,
        LEGEND_FRAME,
    );
    let ghost framed = buffer@;
    draw_tick(buffer, 0, "0");
    draw_tick(buffer, 64, "64");
    draw_tick(buffer, 128, "128");
    draw_tick(buffer, 192, "192");
    draw_tick(buffer, 256, "256");
}

} // verus!
