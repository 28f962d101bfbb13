//! The backends' share of a frame: from plane points and iteration counts
//! to a buffer of colours.
//!
//! A buffer is row-major and its first row is the upper edge of the view.
//! The fixed-width backend is complete here; it hands its rows out to the
//! cores of the processor.  The other two compute their iteration counts
//! elsewhere, on a graphics device or in arbitrary precision, and hand them
//! in.

use rayon::iter::{IntoParallelIterator, ParallelIterator};
use vstd::prelude::*;
use crate::colors::{color_of, iter_to_color_u32};
use crate::constants::{HP_BACKGROUND, HP_RENDER_HEIGHT, HP_RENDER_WIDTH, MANDELBROT_HEIGHT,
    MANDELBROT_WIDTH, MAX_ITER, WINDOW_HEIGHT, WINDOW_WIDTH};
use crate::grid::{lemma_index_of_pixel, lemma_pixel_of_index};
use crate::kernel::{escape_time, mandelbrot_iter_fast};
use crate::viewport::Viewport;

verus! {

/// The colour of the pixel in column `px` and row `py` of a `cols` by `rows`
/// grid over `view`: that of the escape time of its plane point.
pub open spec fn pixel_color(
    view: Viewport,
    px: int,
    py: int,
    cols: int,
    rows: int,
    max_iter: nat,
) -> int {
    color_of(escape_time(view.plane_point(px, py, cols, rows), max_iter) as int, max_iter as int)
}

/// Renders one row of the grid with the fixed-width kernel.  Rows do not
/// depend on one another, so they may be rendered in any order.
pub fn render_row(view: &Viewport, py: u32, cols: u32, rows: u32, max_iter: u32) -> (row: Vec<u32>)
    requires
        view.wf(),
        py < rows,
        cols > 0,
    ensures
        row@.len() == cols,
        forall|px: int|
            0 <= px < cols ==> #[trigger] row@[px] == pixel_color(
                *view,
                px,
                py as int,
                cols as int,
                rows as int,
                max_iter as nat,
            ),
{
    let mut row: Vec<u32> = Vec::new();
    let mut px: u32 = 0;
    while px < cols
        invariant
            view.wf(),
            py < rows,
            0 <= px <= cols,
            row@.len() == px,
            forall|x: int|
                0 <= x < px ==> #[trigger] row@[x] == pixel_color(
                    *view,
                    x,
                    py as int,
                    cols as int,
                    rows as int,
                    max_iter as nat,
                ),
        decreases cols - px,
    {
        let (re, im) = view.pixel_to_plane(px, py, cols, rows);
        let iter = mandelbrot_iter_fast(re, im, max_iter);
        row.push(iter_to_color_u32(iter, max_iter));
        px += 1;
    }
    row
}

/// Whether `row` holds the colours of row `py` of the grid.
pub open spec fn is_row(
    row: Seq<u32>,
    view: Viewport,
    py: int,
    cols: int,
    rows: int,
    max_iter: nat,
) -> bool {
    &&& row.len() == cols
    &&& forall|px: int|
        0 <= px < cols ==> #[trigger] row[px] == pixel_color(view, px, py, cols, rows, max_iter)
}

/// Renders all rows of the grid, handing them out to the worker threads of
/// rayon: `into_par_iter` over the row numbers, `map` with `render_row`,
/// `collect` into a vector.
///
/// Not proved, but taken from rayon: collecting a mapped range into a vector
/// yields one entry per number of the range, in the order of the range, and
/// each entry is what the mapped function returned for its number.
#[verifier::external_body]
fn render_rows(view: &Viewport, cols: u32, rows: u32, max_iter: u32) -> (all: Vec<Vec<u32>>)
    requires
        view.wf(),
        cols > 0,
    ensures
        all@.len() == rows,
        forall|py: int|
            0 <= py < rows ==> is_row(
                (#[trigger] all@[py])@,
                *view,
                py,
                cols as int,
                rows as int,
                max_iter as nat,
            ),
{
    (0..rows).into_par_iter().map(|py| render_row(view, py, cols, rows, max_iter)).collect()
}

/// Renders the whole grid with the fixed-width kernel.  The rows are
/// rendered in parallel and joined from top to bottom.
pub fn render_fast(view: &Viewport, cols: u32, rows: u32, max_iter: u32) -> (pixels: Vec<u32>)
    requires
        view.wf(),
        cols > 0,
        rows > 0,
    ensures
        pixels@.len() == rows * cols,
        forall|i: int|
            0 <= i < rows * cols ==> #[trigger] pixels@[i] == pixel_color(
                *view,
                i % (cols as int),
                i / (cols as int),
                cols as int,
                rows as int,
                max_iter as nat,
            ),
{
    let all = render_rows(view, cols, rows, max_iter);
    let mut pixels: Vec<u32> = Vec::new();
    let mut py: usize = 0;
    while py < all.len()
        invariant
            cols > 0,
            all@.len() == rows,
            0 <= py <= rows,
            forall|y: int|
                0 <= y < rows ==> is_row(
                    (#[trigger] all@[y])@,
                    *view,
                    y,
                    cols as int,
                    rows as int,
                    max_iter as nat,
                ),
            pixels@.len() == py * cols,
            forall|i: int|
                0 <= i < py * cols ==> #[trigger] pixels@[i] == pixel_color(
                    *view,
                    i % (cols as int),
                    i / (cols as int),
                    cols as int,
                    rows as int,
                    max_iter as nat,
                ),
        decreases rows - py,
    {
        let row = &all[py];
        let ghost before = pixels@;
        let mut px: usize = 0;
        while px < row.len()
            invariant
                cols > 0,
                0 <= py < rows,
                0 <= px <= cols,
                before.len() == py * cols,
                is_row(row@, *view, py as int, cols as int, rows as int, max_iter as nat),
                pixels@ == before + row@.take(px as int),
            decreases cols - px,
        {
            pixels.push(row[px]);
            proof {
                assert(row@.take(px + 1) =~= row@.take(px as int).push(row@[px as int]));
                assert(pixels@ =~= before + row@.take(px + 1));
            }
            px += 1;
        }
        proof {
            assert(row@.take(cols as int) =~= row@);
            assert((py + 1) * cols == py * cols + cols) by (nonlinear_arith);
            assert forall|i: int| 0 <= i < (py + 1) * cols implies #[trigger] pixels@[i]
                == pixel_color(
                *view,
                i % (cols as int),
                i / (cols as int),
                cols as int,
                rows as int,
                max_iter as nat,
            ) by {
                if i >= py * cols {
                    let x = i - py * cols;
                    lemma_index_of_pixel(x, py as int, cols as int, rows as int);
                    assert(pixels@[i] == row@[x]);
                } else {
                    assert(pixels@[i] == before[i]);
                }
            }
        }
        py += 1;
    }
    pixels
}

/// What a graphics device is handed for a frame: the four bounds of the
/// view, the size of the grid and the iteration limit, in one block.
#[derive(Clone, Copy, Debug, PartialEq, Eq, Structural)]
pub struct DeviceParams {
    pub x_min: i64,
    pub x_max: i64,
    pub y_min: i64,
    pub y_max: i64,
    pub width: u32,
    pub height: u32,
    pub max_iter: u32,
}

/// The parameter block for the fractal area of `view`.
pub open spec fn device_params_of(view: Viewport) -> DeviceParams {
    DeviceParams {
        x_min: view.x_min,
        x_max: view.x_max,
        y_min: view.y_min,
        y_max: view.y_max,
        width: MANDELBROT_WIDTH as u32,
        height: MANDELBROT_HEIGHT as u32,
        max_iter: MAX_ITER,
    }
}

/// Builds the parameter block for the fractal area of `view`.
pub fn device_params(view: &Viewport) -> (params: DeviceParams)
    ensures
        params == device_params_of(*view),
{
    DeviceParams {
        x_min: view.x_min,
        x_max: view.x_max,
        y_min: view.y_min,
        y_max: view.y_max,
        width: MANDELBROT_WIDTH as u32,
        height: MANDELBROT_HEIGHT as u32,
        max_iter: MAX_ITER,
    }
}

/// Turns iteration counts into colours, entry by entry.
pub fn colorize(iterations: &Vec<u32>, max_iter: u32) -> (pixels: Vec<u32>)
    ensures
        pixels@.len() == iterations@.len(),
        forall|i: int|
            0 <= i < iterations@.len() ==> #[trigger] pixels@[i] == color_of(
                iterations@[i] as int,
                max_iter as int,
            ),
{
    let mut pixels: Vec<u32> = Vec::new();
    let mut i: usize = 0;
    while i < iterations.len()
        invariant
            0 <= i <= iterations@.len(),
            pixels@.len() == i,
            forall|j: int|
                0 <= j < i ==> #[trigger] pixels@[j] == color_of(
                    iterations@[j] as int,
                    max_iter as int,
                ),
        decreases iterations@.len() - i,
    {
        pixels.push(iter_to_color_u32(iterations[i], max_iter));
        i += 1;
    }
    pixels
}

/// Where a block of `inner` pixels starts when it is centred in `outer`
/// pixels; of two middle positions, the lower.
pub open spec fn centered_offset(outer: int, inner: int) -> int {
    (outer - inner) / 2
}

/// The value at `index` of a `cols` by `rows` buffer that shows a block of
/// `low_cols` by `low_rows` pixels in its centre and `background` around it.
pub open spec fn centered_pixel(
    low: Seq<u32>,
    low_cols: int,
    low_rows: int,
    cols: int,
    rows: int,
    background: u32,
    index: int,
) -> u32 {
    let x = index % cols - centered_offset(cols, low_cols);
    let y = index / cols - centered_offset(rows, low_rows);
    if 0 <= x < low_cols && 0 <= y < low_rows {
        low[y * low_cols + x]
    } else {
        background
    }
}

/// Places a block of pixels in the centre of a larger buffer and fills the
/// rest with `background`.
pub fn compose_low_res(
    low: &Vec<u32>,
    low_cols: usize,
    low_rows: usize,
    cols: usize,
    rows: usize,
    background: u32,
) -> (pixels: Vec<u32>)
    requires
        0 < low_cols <= cols,
        low_rows <= rows,
        low@.len() == low_rows * low_cols,
        rows * cols <= usize::MAX,
    ensures
        pixels@.len() == rows * cols,
        forall|i: int|
            0 <= i < rows * cols ==> #[trigger] pixels@[i] == centered_pixel(
                low@,
                low_cols as int,
                low_rows as int,
                cols as int,
                rows as int,
                background,
                i,
            ),
{
    let offset_x: usize = (cols - low_cols) / 2;
    let offset_y: usize = (rows - low_rows) / 2;
    let total: usize = rows * cols;
    let low_total: usize = low.len();
    let mut pixels: Vec<u32> = Vec::new();
    let mut i: usize = 0;
    while i < total
        invariant
            low_total == low@.len(),
            0 < low_cols <= cols,
            low_rows <= rows,
            low@.len() == low_rows * low_cols,
            total == rows * cols,
            offset_x == centered_offset(cols as int, low_cols as int),
            offset_y == centered_offset(rows as int, low_rows as int),
            0 <= i <= total,
            pixels@.len() == i,
            forall|j: int|
                0 <= j < i ==> #[trigger] pixels@[j] == centered_pixel(
                    low@,
                    low_cols as int,
                    low_rows as int,
                    cols as int,
                    rows as int,
                    background,
                    j,
                ),
        decreases total - i,
    {
        let x: usize = i % cols;
        let y: usize = i / cols;
        proof {
            assert(rows * cols == cols * rows) by (nonlinear_arith);
            lemma_pixel_of_index(i as int, cols as int, rows as int);
        }
        if x >= offset_x && x - offset_x < low_cols && y >= offset_y && y - offset_y < low_rows {
            proof {
                lemma_index_of_pixel(
                    (x - offset_x) as int,
                    (y - offset_y) as int,
                    low_cols as int,
                    low_rows as int,
                );
                assert(low_cols * low_rows == low_rows * low_cols) by (nonlinear_arith);
            }
            pixels.push(low[(y - offset_y) * low_cols + (x - offset_x)]);
        } else {
            pixels.push(background);
        }
        i += 1;
    }
    pixels
}

/// The frame of the arbitrary-precision backend: the colours of the
/// iteration counts of the reduced grid, centred in the fractal area, with
/// the neutral background around them.
pub fn render_high_precision(iterations: &Vec<u32>, max_iter: u32) -> (pixels: Vec<u32>)
    requires
        iterations@.len() == HP_RENDER_HEIGHT * HP_RENDER_WIDTH,
    ensures
        pixels@.len() == MANDELBROT_HEIGHT * MANDELBROT_WIDTH,
        forall|i: int|
            0 <= i < MANDELBROT_HEIGHT * MANDELBROT_WIDTH ==> #[trigger] pixels@[i]
                == centered_pixel(
                Seq::new(
                    iterations@.len(),
                    |k: int| color_of(iterations@[k] as int, max_iter as int) as u32,
                ),
                HP_RENDER_WIDTH as int,
                HP_RENDER_HEIGHT as int,
                MANDELBROT_WIDTH as int,
                MANDELBROT_HEIGHT as int,
                HP_BACKGROUND,
                i,
            ),
{
    let low = colorize(iterations, max_iter);
    proof {
        assert(low@ =~= Seq::new(
            iterations@.len(),
            |k: int| color_of(iterations@[k] as int, max_iter as int) as u32,
        ));
    }
    compose_low_res(
        &low,
        HP_RENDER_WIDTH,
        HP_RENDER_HEIGHT,
        MANDELBROT_WIDTH,
        MANDELBROT_HEIGHT,
        HP_BACKGROUND,
    )
}

/// Progress of the arbitrary-precision backend after a row.
#[derive(Clone, Copy, Debug, PartialEq, Eq, Structural)]
pub struct Progress {
    /// Rows that are done.
    pub rows_done: usize,
    /// Share of the rows that are done, in percent, rounded down.
    pub percent: usize,
    /// Cells to fill of a bar of thirty cells, rounded down.
    pub bar_cells: usize,
}

/// Number of cells of the progress bar.
pub const PROGRESS_BAR_CELLS: usize = 30;

/// A share of `scale` in proportion to `done` of `rows` is at most `scale`,
/// and all of it when every row is done.
proof fn lemma_share_bounds(done: int, rows: int, scale: int)
    requires
        0 <= done <= rows,
        rows > 0,
        scale >= 0,
    ensures
        0 <= (done * scale) / rows <= scale,
        done == rows ==> (done * scale) / rows == scale,
{
    let n = done * scale;
    assert(0 <= n <= rows * scale) by (nonlinear_arith)
        requires
            0 <= done <= rows,
            scale >= 0,
            n == done * scale,
    ;
    vstd::arithmetic::div_mod::lemma_fundamental_div_mod(n, rows);
    vstd::arithmetic::div_mod::lemma_mod_bound(n, rows);
    vstd::arithmetic::div_mod::lemma_div_pos_is_pos(n, rows);
    let q = n / rows;
    assert(q <= scale) by (nonlinear_arith)
        requires
            n == rows * q + n % rows,
            0 <= n % rows,
            n <= rows * scale,
            rows > 0,
    ;
    if done == rows {
        assert(q >= scale) by (nonlinear_arith)
            requires
                n == rows * q + n % rows,
                n % rows < rows,
                n == rows * scale,
                rows > 0,
        ;
    }
}

/// The progress after row `py` of `rows` rows is done.
pub fn progress_after_row(py: usize, rows: usize) -> (p: Progress)
    requires
        py < rows,
    ensures
        p.rows_done == py + 1,
        p.percent == (py + 1) * 100 / (rows as int),
        p.bar_cells == (py + 1) * PROGRESS_BAR_CELLS / (rows as int),
        p.percent <= 100,
        p.bar_cells <= PROGRESS_BAR_CELLS,
        py + 1 == rows ==> p.percent == 100 && p.bar_cells == PROGRESS_BAR_CELLS,
{
    let done: usize = py + 1;
    proof {
        lemma_share_bounds(done as int, rows as int, 100);
        lemma_share_bounds(done as int, rows as int, PROGRESS_BAR_CELLS as int);
    }
    let percent: u128 = (done as u128) * 100 / (rows as u128);
    let bar_cells: u128 = (done as u128) * (PROGRESS_BAR_CELLS as u128) / (rows as u128);
    Progress { rows_done: done, percent: percent as usize, bar_cells: bar_cells as usize }
}

/// Rows between two reports of progress: a hundredth of the rows, and at
/// least one.
pub open spec fn report_interval(rows: int) -> int {
    if rows / 100 >= 1 {
        rows / 100
    } else {
        1
    }
}

/// Whether progress is reported after row `py`: at every interval, and
/// after the last row.
pub fn reports_progress(py: usize, rows: usize) -> (r: bool)
    requires
        py < rows,
    ensures
        r == ((py as int) % report_interval(rows as int) == 0 || py == rows - 1),
{
    let interval: usize = if rows / 100 >= 1 { rows / 100 } else { 1 };
    py % interval == 0 || py == rows - 1
}

/// Copies the fractal area into the left part of the window buffer; the
/// legend beside it keeps its pixels.
pub fn compose_buffer(window: &mut Vec<u32>, fractal: &Vec<u32>)
    requires
        old(window)@.len() == WINDOW_HEIGHT * WINDOW_WIDTH,
        fractal@.len() == MANDELBROT_HEIGHT * MANDELBROT_WIDTH,
    ensures
        final(window)@.len() == old(window)@.len(),
        forall|i: int|
            0 <= i < WINDOW_HEIGHT * WINDOW_WIDTH ==> #[trigger] final(window)@[i] == (if i % (
            WINDOW_WIDTH as int) < MANDELBROT_WIDTH {
                fractal@[(i / (WINDOW_WIDTH as int)) * MANDELBROT_WIDTH + i % (WINDOW_WIDTH as int)]
            } else {
                old(window)@[i]
            }),
{
    let mut y: usize = 0;
    while y < MANDELBROT_HEIGHT
        invariant
            0 <= y <= MANDELBROT_HEIGHT,
            window@.len() == WINDOW_HEIGHT * WINDOW_WIDTH,
            window@.len() == old(window)@.len(),
            fractal@.len() == MANDELBROT_HEIGHT * MANDELBROT_WIDTH,
            forall|i: int|
                0 <= i < WINDOW_HEIGHT * WINDOW_WIDTH ==> #[trigger] window@[i] == (if i % (
                WINDOW_WIDTH as int) < MANDELBROT_WIDTH && i / (WINDOW_WIDTH as int) < y {
                    fractal@[(i / (WINDOW_WIDTH as int)) * MANDELBROT_WIDTH + i % (
                    WINDOW_WIDTH as int)]
                } else {
                    old(window)@[i]
                }),
        decreases MANDELBROT_HEIGHT - y,
    {
        let mut x: usize = 0;
        while x < MANDELBROT_WIDTH
            invariant
                0 <= x <= MANDELBROT_WIDTH,
                0 <= y < MANDELBROT_HEIGHT,
                window@.len() == WINDOW_HEIGHT * WINDOW_WIDTH,
                window@.len() == old(window)@.len(),
                fractal@.len() == MANDELBROT_HEIGHT * MANDELBROT_WIDTH,
                forall|i: int|
                    0 <= i < WINDOW_HEIGHT * WINDOW_WIDTH ==> #[trigger] window@[i] == (if i % (
                    WINDOW_WIDTH as int) < MANDELBROT_WIDTH && (i / (WINDOW_WIDTH as int) < y || (i
                        / (WINDOW_WIDTH as int) == y && i % (WINDOW_WIDTH as int) < x)) {
                        fractal@[(i / (WINDOW_WIDTH as int)) * MANDELBROT_WIDTH + i % (
                        WINDOW_WIDTH as int)]
                    } else {
                        old(window)@[i]
                    }),
            decreases MANDELBROT_WIDTH - x,
        {
            let value: u32 = fractal[y * MANDELBROT_WIDTH + x];
            window.set(y * WINDOW_WIDTH + x, value);
            x += 1;
        }
        y += 1;
    }
}

} // verus!
