//! The viewport: the rectangle of the complex plane on display.

use vstd::prelude::*;
use crate::fixed::{lemma_div_toward_zero_bounds, scale_by, scale_ratio, EXTENT};
use crate::policy::{INITIAL_PRECISION, MAX_PRECISION, ZoomFactor, lemma_precision_never_narrows,
    lemma_precision_settles, precision_after, update_precision};

verus! {

/// Left edge of a fresh view: -2.5.
pub const DEFAULT_X_MIN: i64 = -0x0280_0000_0000_0000;

/// Right edge of a fresh view: 1.0.
pub const DEFAULT_X_MAX: i64 = 0x0100_0000_0000_0000;

/// Lower edge of a fresh view: -1.5.
pub const DEFAULT_Y_MIN: i64 = -0x0180_0000_0000_0000;

/// Upper edge of a fresh view: 1.5.
pub const DEFAULT_Y_MAX: i64 = 0x0180_0000_0000_0000;

/// The width that zoom factors are measured against: 3.5, the width of a
/// fresh view.
pub const REFERENCE_WIDTH: u64 = 0x0380_0000_0000_0000;

/// A rectangle of the plane, with the bit width that rendering it takes.
#[derive(Clone, Copy, Debug, PartialEq, Eq, Structural)]
pub struct Viewport {
    pub x_min: i64,
    pub x_max: i64,
    pub y_min: i64,
    pub y_max: i64,
    pub precision: u32,
}

impl Viewport {
    /// A viewport has a positive width and height, lies within the extent
    /// of the plane, and has a bit width between the least and the largest.
    pub open spec fn wf(&self) -> bool {
        &&& -EXTENT <= self.x_min < self.x_max <= EXTENT
        &&& -EXTENT <= self.y_min < self.y_max <= EXTENT
        &&& INITIAL_PRECISION <= self.precision <= MAX_PRECISION
    }

    /// The view that every session starts from.
    pub open spec fn initial() -> Viewport {
        Viewport {
            x_min: DEFAULT_X_MIN,
            x_max: DEFAULT_X_MAX,
            y_min: DEFAULT_Y_MIN,
            y_max: DEFAULT_Y_MAX,
            precision: INITIAL_PRECISION,
        }
    }

    pub open spec fn spec_width(&self) -> int {
        self.x_max - self.x_min
    }

    pub open spec fn spec_height(&self) -> int {
        self.y_max - self.y_min
    }

    /// The point in the middle of the view; of two middle units, the lower.
    pub open spec fn spec_center(&self) -> (int, int) {
        (self.x_min + self.spec_width() / 2, self.y_min + self.spec_height() / 2)
    }

    /// The plane point of the pixel in column `px` and row `py` of a grid of
    /// `cols` by `rows` pixels laid over the view.  Row 0 is the upper edge.
    pub open spec fn plane_point(&self, px: int, py: int, cols: int, rows: int) -> (int, int) {
        (
            self.x_min + scale_by(self.spec_width(), px, cols),
            self.y_max - scale_by(self.spec_height(), py, rows),
        )
    }

    /// The zoom factor of the view.
    pub open spec fn spec_zoom_factor(&self) -> ZoomFactor {
        ZoomFactor { numerator: REFERENCE_WIDTH, denominator: self.spec_width() as u64 }
    }

    /// Whether the bit width is settled: re-evaluating it for the zoom
    /// factor of the view would leave it as it is.
    pub open spec fn settled(&self) -> bool {
        self.precision == precision_after(self.precision as int, self.spec_zoom_factor())
    }

    /// The view with its bit width re-evaluated for its zoom factor.
    pub open spec fn with_settled_precision(&self) -> Viewport {
        Viewport {
            precision: precision_after(self.precision as int, self.spec_zoom_factor()) as u32,
            ..*self
        }
    }

    /// The view of width and height scaled by `numerator / denominator`
    /// around the centre (`center_re`, `center_im`).
    pub open spec fn recentered(
        &self,
        center_re: int,
        center_im: int,
        numerator: int,
        denominator: int,
    ) -> Viewport {
        let width = scale_by(self.spec_width(), numerator, denominator);
        let height = scale_by(self.spec_height(), numerator, denominator);
        let x_min = center_re - width / 2;
        let y_min = center_im - height / 2;
        Viewport {
            x_min: x_min as i64,
            x_max: (x_min + width) as i64,
            y_min: y_min as i64,
            y_max: (y_min + height) as i64,
            precision: precision_after(
                self.precision as int,
                ZoomFactor { numerator: REFERENCE_WIDTH, denominator: width as u64 },
            ) as u32,
        }
    }

    /// Whether the scaled and recentred view is a viewport: the ratio has a
    /// denominator, the view keeps a width and a height of at least one
    /// unit, and it stays within the extent of the plane.
    pub open spec fn admits(
        &self,
        center_re: int,
        center_im: int,
        numerator: int,
        denominator: int,
    ) -> bool {
        let width = scale_by(self.spec_width(), numerator, denominator);
        let height = scale_by(self.spec_height(), numerator, denominator);
        &&& denominator > 0
        &&& width >= 1
        &&& height >= 1
        &&& -EXTENT <= center_re - width / 2
        &&& center_re - width / 2 + width <= EXTENT
        &&& -EXTENT <= center_im - height / 2
        &&& center_im - height / 2 + height <= EXTENT
    }

    /// The view after a request to recentre and scale it: the recentred view
    /// where that is a viewport, and the view as it is where it is not.
    pub open spec fn changed(
        &self,
        center_re: int,
        center_im: int,
        numerator: int,
        denominator: int,
    ) -> Viewport {
        if self.admits(center_re, center_im, numerator, denominator) {
            self.recentered(center_re, center_im, numerator, denominator)
        } else {
            *self
        }
    }

    /// Creates the initial view.
    pub fn new() -> (v: Viewport)
        ensures
            v == Viewport::initial(),
            v.wf(),
    {
        Viewport {
            x_min: DEFAULT_X_MIN,
            x_max: DEFAULT_X_MAX,
            y_min: DEFAULT_Y_MIN,
            y_max: DEFAULT_Y_MAX,
            precision: INITIAL_PRECISION,
        }
    }

    /// Restores the initial bounds and the least bit width.
    pub fn reset(&mut self)
        ensures
            *final(self) == Viewport::initial(),
            final(self).wf(),
    {
        self.x_min = DEFAULT_X_MIN;
        self.x_max = DEFAULT_X_MAX;
        self.y_min = DEFAULT_Y_MIN;
        self.y_max = DEFAULT_Y_MAX;
        self.precision = INITIAL_PRECISION;
    }

    /// The width of the view.
    pub fn width(&self) -> (w: i64)
        requires
            self.wf(),
        ensures
            w == self.spec_width(),
            w >= 1,
    {
        self.x_max - self.x_min
    }

    /// The height of the view.
    pub fn height(&self) -> (h: i64)
        requires
            self.wf(),
        ensures
            h == self.spec_height(),
            h >= 1,
    {
        self.y_max - self.y_min
    }

    /// The centre of the view.
    pub fn center(&self) -> (c: (i64, i64))
        requires
            self.wf(),
        ensures
            (c.0 as int, c.1 as int) == self.spec_center(),
    {
        (self.x_min + self.width() / 2, self.y_min + self.height() / 2)
    }

    /// The zoom factor of the view: the reference width over its width.
    pub fn zoom_factor(&self) -> (zoom: ZoomFactor)
        requires
            self.wf(),
        ensures
            zoom == self.spec_zoom_factor(),
            zoom.wf(),
    {
        ZoomFactor { numerator: REFERENCE_WIDTH, denominator: self.width() as u64 }
    }

    /// Maps a pixel of a `cols` by `rows` grid to its plane point, by linear
    /// interpolation between the bounds.  Column `cols` and row `rows` stand
    /// for the far edges.
    pub fn pixel_to_plane(&self, px: u32, py: u32, cols: u32, rows: u32) -> (point: (i64, i64))
        requires
            self.wf(),
            px <= cols,
            py <= rows,
            cols > 0,
            rows > 0,
        ensures
            (point.0 as int, point.1 as int) == self.plane_point(
                px as int,
                py as int,
                cols as int,
                rows as int,
            ),
            self.x_min <= point.0 <= self.x_max,
            self.y_min <= point.1 <= self.y_max,
    {
        let width = self.width();
        let height = self.height();
        let dx = scale_ratio(width, px, cols);
        let dy = scale_ratio(height, py, rows);
        proof {
            lemma_div_toward_zero_bounds(width * px, cols as int);
            lemma_div_toward_zero_bounds(height * py, rows as int);
            assert(0 <= width * px <= width * cols) by (nonlinear_arith)
                requires
                    width >= 0,
                    0 <= px <= cols,
            ;
            assert(0 <= height * py <= height * rows) by (nonlinear_arith)
                requires
                    height >= 0,
                    0 <= py <= rows,
            ;
            assert(0 <= dx <= width) by (nonlinear_arith)
                requires
                    0 <= dx * cols <= width * px,
                    width * px <= width * cols,
                    cols > 0,
            ;
            assert(0 <= dy <= height) by (nonlinear_arith)
                requires
                    0 <= dy * rows <= height * py,
                    height * py <= height * rows,
                    rows > 0,
            ;
        }
        ((self.x_min as i128 + dx) as i64, (self.y_max as i128 - dy) as i64)
    }

    /// Maps any pixel position of a `cols` by `rows` grid, also one beyond
    /// the grid, to its plane point; such a point may lie beyond what a
    /// coordinate can hold.
    pub fn pixel_to_plane_unbounded(&self, px: u32, py: u32, cols: u32, rows: u32) -> (point: (
        i128,
        i128,
    ))
        requires
            self.wf(),
            cols > 0,
            rows > 0,
        ensures
            (point.0 as int, point.1 as int) == self.plane_point(
                px as int,
                py as int,
                cols as int,
                rows as int,
            ),
    {
        let width = self.width();
        let height = self.height();
        let dx = scale_ratio(width, px, cols);
        let dy = scale_ratio(height, py, rows);
        proof {
            lemma_div_toward_zero_bounds(width * px, cols as int);
            lemma_div_toward_zero_bounds(height * py, rows as int);
            assert(0 <= width * px <= 0x4000_0000_0000_0000 * 0x1_0000_0000) by (nonlinear_arith)
                requires
                    0 <= width <= 0x4000_0000_0000_0000,
                    0 <= px <= 0x1_0000_0000,
            ;
            assert(0 <= height * py <= 0x4000_0000_0000_0000 * 0x1_0000_0000) by (nonlinear_arith)
                requires
                    0 <= height <= 0x4000_0000_0000_0000,
                    0 <= py <= 0x1_0000_0000,
            ;
            assert(0 <= dx <= width * px) by (nonlinear_arith)
                requires
                    0 <= dx * cols <= width * px,
                    cols >= 1,
            ;
            assert(0 <= dy <= height * py) by (nonlinear_arith)
                requires
                    0 <= dy * rows <= height * py,
                    rows >= 1,
            ;
        }
        (self.x_min as i128 + dx, self.y_max as i128 - dy)
    }

    /// Re-evaluates the bit width for the zoom factor of the view; the
    /// bounds stay as they are.
    pub fn settle_precision(&mut self)
        requires
            old(self).wf(),
        ensures
            *final(self) == old(self).with_settled_precision(),
            final(self).precision == precision_after(
                old(self).precision as int,
                old(self).spec_zoom_factor(),
            ),
            final(self).wf(),
            final(self).settled(),
            final(self).precision >= old(self).precision,
            old(self).settled() ==> *final(self) == *old(self),
    {
        proof {
            lemma_precision_settles(self.precision as int, self.spec_zoom_factor());
        }
        self.precision = update_precision(self.precision, self.zoom_factor());
    }

    /// Recentres the view on a point and scales its width and height by
    /// `numerator / denominator`; a ratio below 1 zooms in.  The bit width is
    /// re-evaluated for the new zoom factor.
    ///
    /// A change that would leave no viewport is not made: the
    /// view stays as it is.
    pub fn zoom(&mut self, center_re: i64, center_im: i64, numerator: u32, denominator: u32)
        requires
            old(self).wf(),
        ensures
            final(self).wf(),
            *final(self) == old(self).changed(
                center_re as int,
                center_im as int,
                numerator as int,
                denominator as int,
            ),
            final(self).precision >= old(self).precision,
            old(self).admits(
                center_re as int,
                center_im as int,
                numerator as int,
                denominator as int,
            ) ==> {
                &&& final(self).spec_center() == (center_re as int, center_im as int)
                &&& final(self).spec_width() == scale_by(
                    old(self).spec_width(),
                    numerator as int,
                    denominator as int,
                )
                &&& final(self).spec_height() == scale_by(
                    old(self).spec_height(),
                    numerator as int,
                    denominator as int,
                )
                &&& final(self).settled()
            },
            old(self).settled() ==> final(self).settled(),
    {
        if denominator == 0 {
            return ;
        }
        let span: i128 = 2 * (EXTENT as i128);
        let width = scale_ratio(self.width(), numerator, denominator);
        let height = scale_ratio(self.height(), numerator, denominator);
        if width < 1 || height < 1 || width > span || height > span {
            return ;
        }
        let x_min: i128 = center_re as i128 - width / 2;
        let y_min: i128 = center_im as i128 - height / 2;
        let x_max: i128 = x_min + width;
        let y_max: i128 = y_min + height;
        let low: i128 = -(EXTENT as i128);
        let high: i128 = EXTENT as i128;
        if x_min < low || x_max > high || y_min < low || y_max > high {
            return ;
        }
        let zoom = ZoomFactor { numerator: REFERENCE_WIDTH, denominator: width as u64 };
        proof {
            lemma_precision_settles(self.precision as int, zoom);
        }
        self.precision = update_precision(self.precision, zoom);
        self.x_min = x_min as i64;
        self.x_max = x_max as i64;
        self.y_min = y_min as i64;
        self.y_max = y_max as i64;
    }

    /// Recentres the view on a point; its width and height stay as they are.
    pub fn pan(&mut self, center_re: i64, center_im: i64)
        requires
            old(self).wf(),
        ensures
            final(self).wf(),
            *final(self) == old(self).changed(center_re as int, center_im as int, 1, 1),
            final(self).spec_width() == old(self).spec_width(),
            final(self).spec_height() == old(self).spec_height(),
            final(self).precision >= old(self).precision,
            old(self).admits(center_re as int, center_im as int, 1, 1)
                ==> final(self).spec_center() == (center_re as int, center_im as int),
            old(self).settled() ==> final(self).settled() && final(self).precision == old(
                self,
            ).precision,
    {
        proof {
            let w = self.spec_width();
            let h = self.spec_height();
            assert(w * 1 == w && h * 1 == h) by (nonlinear_arith);
        }
        self.zoom(center_re, center_im, 1, 1);
    }
}

/// Zooming in by one half around the centre of a view and out again by two
/// restores the view to within one unit: the left and the lower edge
/// exactly, the right and the upper edge one unit short of where they were
/// if the width or the height was odd.  The bit width does not decrease.
pub proof fn lemma_zoom_in_then_out_restores(view: Viewport)
    requires
        view.wf(),
        view.admits(view.spec_center().0, view.spec_center().1, 1, 2),
    ensures
        ({
            let c = view.spec_center();
            let inner = view.recentered(c.0, c.1, 1, 2);
            let outer = inner.recentered(c.0, c.1, 2, 1);
            &&& inner.wf()
            &&& inner.admits(c.0, c.1, 2, 1)
            &&& outer.wf()
            &&& outer.x_min == view.x_min
            &&& outer.y_min == view.y_min
            &&& view.x_max - 1 <= outer.x_max <= view.x_max
            &&& view.y_max - 1 <= outer.y_max <= view.y_max
            &&& outer.precision >= view.precision
        }),
{
    let c = view.spec_center();
    let w = view.spec_width();
    let h = view.spec_height();
    assert(w * 1 == w && h * 1 == h) by (nonlinear_arith);
    let inner = view.recentered(c.0, c.1, 1, 2);
    let iw = w / 2;
    let ih = h / 2;
    assert(inner.spec_width() == iw && inner.spec_height() == ih);
    lemma_precision_never_narrows(
        view.precision as int,
        ZoomFactor { numerator: REFERENCE_WIDTH, denominator: iw as u64 },
    );
    assert(iw * 2 == 2 * iw && ih * 2 == 2 * ih) by (nonlinear_arith);
    assert(scale_by(iw, 2, 1) == 2 * iw);
    assert(scale_by(ih, 2, 1) == 2 * ih);
    lemma_precision_never_narrows(
        inner.precision as int,
        ZoomFactor { numerator: REFERENCE_WIDTH, denominator: (2 * iw) as u64 },
    );
}

/// Zooming in by one half through the middle pixel of an 800 by 600 grid
/// and out again by two through the same pixel restores every bound to
/// within two units, provided both changes are made.  The bit width does
/// not decrease.
pub proof fn lemma_zoom_through_middle_pixel_restores(view: Viewport)
    requires
        view.wf(),
        ({
            let c = view.plane_point(400, 300, 800, 600);
            let inner = view.recentered(c.0, c.1, 1, 2);
            let d = inner.plane_point(400, 300, 800, 600);
            view.admits(c.0, c.1, 1, 2) && inner.admits(d.0, d.1, 2, 1)
        }),
    ensures
        ({
            let c = view.plane_point(400, 300, 800, 600);
            let inner = view.recentered(c.0, c.1, 1, 2);
            let d = inner.plane_point(400, 300, 800, 600);
            let outer = inner.recentered(d.0, d.1, 2, 1);
            &&& inner.wf()
            &&& outer.wf()
            &&& outer.x_min == view.x_min
            &&& view.x_max - 1 <= outer.x_max <= view.x_max
            &&& view.y_min <= outer.y_min <= view.y_min + 2
            &&& view.y_max <= outer.y_max <= view.y_max + 1
            &&& outer.precision >= view.precision
        }),
{
    let c = view.plane_point(400, 300, 800, 600);
    let w = view.spec_width();
    let h = view.spec_height();
    assert(w * 1 == w && h * 1 == h) by (nonlinear_arith);
    assert(w * 400 == 400 * w && h * 300 == 300 * h) by (nonlinear_arith);
    assert(c == (view.x_min + w / 2, view.y_max - h / 2));
    lemma_recentered_geometry(view, c.0, c.1, 1, 2);
    let inner = view.recentered(c.0, c.1, 1, 2);
    let iw = w / 2;
    let ih = h / 2;
    assert(inner.spec_width() == iw && inner.spec_height() == ih);
    assert(iw * 400 == 400 * iw && ih * 300 == 300 * ih) by (nonlinear_arith);
    let d = inner.plane_point(400, 300, 800, 600);
    assert(d == (inner.x_min + iw / 2, inner.y_max - ih / 2));
    assert(iw * 2 == 2 * iw && ih * 2 == 2 * ih) by (nonlinear_arith);
    assert(scale_by(iw, 2, 1) == 2 * iw);
    assert(scale_by(ih, 2, 1) == 2 * ih);
    lemma_recentered_geometry(inner, d.0, d.1, 2, 1);
    lemma_precision_never_narrows(
        view.precision as int,
        ZoomFactor { numerator: REFERENCE_WIDTH, denominator: iw as u64 },
    );
    lemma_precision_never_narrows(
        inner.precision as int,
        ZoomFactor { numerator: REFERENCE_WIDTH, denominator: (2 * iw) as u64 },
    );
}

/// Panning to the centre of a view leaves the view in place.
pub proof fn lemma_pan_to_center_keeps_bounds(view: Viewport)
    requires
        view.wf(),
    ensures
        ({
            let c = view.spec_center();
            let panned = view.recentered(c.0, c.1, 1, 1);
            &&& view.admits(c.0, c.1, 1, 1)
            &&& panned.x_min == view.x_min
            &&& panned.x_max == view.x_max
            &&& panned.y_min == view.y_min
            &&& panned.y_max == view.y_max
        }),
{
    let w = view.spec_width();
    let h = view.spec_height();
    assert(w * 1 == w && h * 1 == h) by (nonlinear_arith);
}

/// After a zoom or a pan that is made, the chosen point is the centre of
/// the view, and the width and the height are the old ones scaled by the
/// ratio, rounded toward zero.
pub proof fn lemma_recentered_geometry(
    view: Viewport,
    center_re: int,
    center_im: int,
    numerator: int,
    denominator: int,
)
    requires
        view.wf(),
        view.admits(center_re, center_im, numerator, denominator),
    ensures
        ({
            let next = view.recentered(center_re, center_im, numerator, denominator);
            &&& next.wf()
            &&& next.spec_center() == (center_re, center_im)
            &&& next.spec_width() == scale_by(view.spec_width(), numerator, denominator)
            &&& next.spec_height() == scale_by(view.spec_height(), numerator, denominator)
        }),
{
    let width = scale_by(view.spec_width(), numerator, denominator);
    lemma_precision_never_narrows(
        view.precision as int,
        ZoomFactor { numerator: REFERENCE_WIDTH, denominator: width as u64 },
    );
}

/// The bit width has no part in the bounds: two views that differ in it
/// alone admit the same changes and get the same bounds from them.  Raising
/// the bit width therefore keeps every coordinate exactly.
pub proof fn lemma_bounds_ignore_precision(
    view: Viewport,
    precision: u32,
    center_re: int,
    center_im: int,
    numerator: int,
    denominator: int,
)
    ensures
        ({
            let other = Viewport { precision, ..view };
            let a = view.recentered(center_re, center_im, numerator, denominator);
            let b = other.recentered(center_re, center_im, numerator, denominator);
            &&& other.admits(center_re, center_im, numerator, denominator) == view.admits(
                center_re,
                center_im,
                numerator,
                denominator,
            )
            &&& a.x_min == b.x_min
            &&& a.x_max == b.x_max
            &&& a.y_min == b.y_min
            &&& a.y_max == b.y_max
        }),
{
}

/// The corner pixels map to the corners of the view: column 0 and row 0 to
/// the left and the upper edge, column `cols` and row `rows` to the right
/// and the lower edge.
pub proof fn lemma_plane_point_corners(view: Viewport, cols: int, rows: int)
    requires
        cols > 0,
        rows > 0,
    ensures
        view.plane_point(0, 0, cols, rows) == (view.x_min as int, view.y_max as int),
        view.plane_point(cols, rows, cols, rows) == (
            view.x_min + view.spec_width(),
            view.y_max - view.spec_height(),
        ),
{
    let w = view.spec_width();
    let h = view.spec_height();
    assert(w * 0 == 0 && h * 0 == 0) by (nonlinear_arith);
    assert(0int / cols == 0 && 0int / rows == 0) by (nonlinear_arith)
        requires
            cols > 0,
            rows > 0,
    ;
    lemma_scale_by_whole(w, cols);
    lemma_scale_by_whole(h, rows);
}

/// A value scaled by `d / d` is the value itself.
proof fn lemma_scale_by_whole(value: int, d: int)
    requires
        d > 0,
    ensures
        scale_by(value, d, d) == value,
{
    if value >= 0 {
        vstd::arithmetic::div_mod::lemma_div_multiples_vanish(value, d);
        assert(value * d == d * value && value * d >= 0) by (nonlinear_arith)
            requires
                value >= 0,
                d > 0,
        ;
    } else {
        vstd::arithmetic::div_mod::lemma_div_multiples_vanish(-value, d);
        assert(-(value * d) == d * (-value) && value * d < 0) by (nonlinear_arith)
            requires
                value < 0,
                d > 0,
        ;
    }
}

/// Pixels further right map to points further right, and pixels further
/// down to points further down.
pub proof fn lemma_plane_point_monotonic(
    view: Viewport,
    px: int,
    py: int,
    qx: int,
    qy: int,
    cols: int,
    rows: int,
)
    requires
        view.wf(),
        cols > 0,
        rows > 0,
        0 <= px <= qx,
        0 <= py <= qy,
    ensures
        view.plane_point(px, py, cols, rows).0 <= view.plane_point(qx, qy, cols, rows).0,
        view.plane_point(px, py, cols, rows).1 >= view.plane_point(qx, qy, cols, rows).1,
{
    let w = view.spec_width();
    let h = view.spec_height();
    assert(0 <= w * px <= w * qx) by (nonlinear_arith)
        requires
            w >= 0,
            0 <= px <= qx,
    ;
    assert(0 <= h * py <= h * qy) by (nonlinear_arith)
        requires
            h >= 0,
            0 <= py <= qy,
    ;
    vstd::arithmetic::div_mod::lemma_div_is_ordered(w * px, w * qx, cols);
    vstd::arithmetic::div_mod::lemma_div_is_ordered(h * py, h * qy, rows);
}

} // verus!
