//! The state of a viewer and the entry points that change it.
//!
//! Every change of the bounds re-evaluates the compute mode.  Rendering is
//! split in two: `render_mandelbrot` renders what the fixed-width backend
//! can render and says which outside backend has to run otherwise; the
//! iteration counts of that backend come back through `accept_frame`
//! or `accept_high_precision_frame`.

use vstd::prelude::*;
use crate::constants::{HP_BACKGROUND, HP_RENDER_HEIGHT, HP_RENDER_WIDTH, MANDELBROT_HEIGHT,
    MANDELBROT_WIDTH, MAX_ITER, WINDOW_HEIGHT, WINDOW_WIDTH, ZOOM_IN, ZOOM_OUT};
use crate::colors::color_of;
use crate::legend::{draw_colorbar, legend_pixel};
use crate::fixed::{scale_by, EXTENT};
use crate::policy::{ComputeMode, ZoomFactor, lemma_policy_is_function_of_zoom, mode_for,
    precision_after, select_mode};
use crate::render::{centered_pixel, colorize, compose_buffer, device_params, device_params_of,
    pixel_color, render_fast, render_high_precision, DeviceParams};
use crate::viewport::Viewport;

verus! {

/// The direction of one step of zooming.
#[derive(Clone, Copy, Debug, PartialEq, Eq, Structural)]
pub enum ZoomDirection {
    In,
    Out,
}

/// What is left to do for the frame after `render_mandelbrot`.
#[derive(Clone, Copy, Debug, PartialEq, Eq, Structural)]
pub enum RenderStep {
    /// The frame is in the buffer.
    Done,
    /// A graphics device has to compute the iteration counts of the fractal
    /// area, from this parameter block.
    Device { params: DeviceParams },
    /// The arbitrary-precision backend has to compute the iteration counts
    /// of the reduced grid of this size, with this many bits.
    HighPrecision { precision: u32, width: u32, height: u32 },
}

/// A snapshot of the viewer for display.
#[derive(Clone, Copy, Debug)]
pub struct Status {
    pub mode: ComputeMode,
    pub precision_bits: u32,
    pub center: (i64, i64),
    pub zoom_factor: ZoomFactor,
}

/// The state of a viewer.
pub struct ViewerState {
    /// The rectangle of the plane on display.
    pub view: Viewport,
    /// The mode of the current view.
    pub compute_mode: ComputeMode,
    /// Whether a graphics device is at hand.
    pub gpu_available: bool,
    /// The window: the fractal area and the legend.
    pub buffer: Vec<u32>,
    /// The fractal area alone.
    pub mandelbrot_buffer: Vec<u32>,
    /// Whether the bounds changed since the last frame.
    pub needs_redraw: bool,
}

impl ViewerState {
    /// The view is a viewport, the buffers have the sizes of the window and
    /// of the fractal area, and the mode and the bit width are in line with
    /// the zoom factor: the mode is the one of the zoom factor, and the bit
    /// width is settled.
    pub open spec fn wf(&self) -> bool {
        &&& self.view.wf()
        &&& self.view.settled()
        &&& self.buffer@.len() == WINDOW_HEIGHT * WINDOW_WIDTH
        &&& self.mandelbrot_buffer@.len() == MANDELBROT_HEIGHT * MANDELBROT_WIDTH
        &&& self.compute_mode == mode_for(self.view.spec_zoom_factor(), self.gpu_available)
    }

    /// Whether the window shows the fractal area beside the legend.
    pub open spec fn composed(&self) -> bool {
        forall|i: int|
            0 <= i < WINDOW_HEIGHT * WINDOW_WIDTH && i % (WINDOW_WIDTH as int) < MANDELBROT_WIDTH
                ==> #[trigger] self.buffer@[i] == self.mandelbrot_buffer@[(i / (
            WINDOW_WIDTH as int)) * MANDELBROT_WIDTH + i % (WINDOW_WIDTH as int)]
    }

    /// Whether the legend beside the fractal area is the one of `before`.
    pub open spec fn legend_kept(&self, before: ViewerState) -> bool {
        forall|i: int|
            0 <= i < WINDOW_HEIGHT * WINDOW_WIDTH && i % (WINDOW_WIDTH as int) >= MANDELBROT_WIDTH
                ==> #[trigger] self.buffer@[i] == before.buffer@[i]
    }

    /// Creates a viewer on the initial view, with black buffers and the
    /// legend drawn, waiting for its first frame.
    pub fn new(gpu_available: bool) -> (state: ViewerState)
        ensures
            state.wf(),
            state.view == Viewport::initial(),
            state.gpu_available == gpu_available,
            state.needs_redraw,
            forall|i: int|
                0 <= i < MANDELBROT_HEIGHT * MANDELBROT_WIDTH
                    ==> #[trigger] state.mandelbrot_buffer@[i] == 0,
            forall|i: int|
                0 <= i < WINDOW_HEIGHT * WINDOW_WIDTH ==> #[trigger] state.buffer@[i]
                    == legend_pixel(i, 0),
    {
        let view = Viewport::new();
        let compute_mode = select_mode(view.zoom_factor(), gpu_available);
        let mut buffer = zeroes(WINDOW_HEIGHT * WINDOW_WIDTH);
        let mandelbrot_buffer = zeroes(MANDELBROT_HEIGHT * MANDELBROT_WIDTH);
        draw_colorbar(buffer.as_mut_slice());
        ViewerState {
            view,
            compute_mode,
            gpu_available,
            buffer,
            mandelbrot_buffer,
            needs_redraw: true,
        }
    }

    /// Restores the initial view and the least bit width.  Returns whether
    /// the mode changed.
    pub fn on_reset(&mut self) -> (mode_changed: bool)
        requires
            old(self).wf(),
        ensures
            final(self).wf(),
            final(self).view == Viewport::initial(),
            final(self).needs_redraw,
            final(self).gpu_available == old(self).gpu_available,
            final(self).buffer == old(self).buffer,
            final(self).mandelbrot_buffer == old(self).mandelbrot_buffer,
            mode_changed == (final(self).compute_mode != old(self).compute_mode),
    {
        self.view.reset();
        self.needs_redraw = true;
        self.update_compute_mode()
    }

    /// The zoom factor of the view.
    pub fn current_zoom(&self) -> (zoom: ZoomFactor)
        requires
            self.view.wf(),
        ensures
            zoom == self.view.spec_zoom_factor(),
            zoom.wf(),
    {
        self.view.zoom_factor()
    }

    /// Brings the mode and the bit width in line with the zoom factor of the
    /// view: the mode becomes the one of the zoom factor, and above the high
    /// threshold the bit width rises to what the zoom factor requires.  The
    /// bounds stay as they are.  Returns whether the mode changed.
    ///
    /// This is also the way back to a consistent state after the bounds were
    /// set directly.
    pub fn update_compute_mode(&mut self) -> (mode_changed: bool)
        requires
            old(self).view.wf(),
        ensures
            final(self).compute_mode == mode_for(
                old(self).view.spec_zoom_factor(),
                old(self).gpu_available,
            ),
            mode_changed == (final(self).compute_mode != old(self).compute_mode),
            final(self).view == old(self).view.with_settled_precision(),
            final(self).view.precision == precision_after(
                old(self).view.precision as int,
                old(self).view.spec_zoom_factor(),
            ),
            final(self).view.precision >= old(self).view.precision,
            final(self).view.wf(),
            final(self).view.settled(),
            final(self).gpu_available == old(self).gpu_available,
            final(self).buffer == old(self).buffer,
            final(self).mandelbrot_buffer == old(self).mandelbrot_buffer,
            final(self).needs_redraw == old(self).needs_redraw,
            old(self).buffer@.len() == WINDOW_HEIGHT * WINDOW_WIDTH && old(
                self,
            ).mandelbrot_buffer@.len() == MANDELBROT_HEIGHT * MANDELBROT_WIDTH ==> final(self).wf(),
    {
        let before = self.compute_mode;
        self.compute_mode = select_mode(self.view.zoom_factor(), self.gpu_available);
        self.view.settle_precision();
        before != self.compute_mode
    }

    /// The plane point of a pixel of the fractal area.
    pub fn pixel_to_complex(&self, x: u32, y: u32) -> (point: (i64, i64))
        requires
            self.view.wf(),
            x <= MANDELBROT_WIDTH,
            y <= MANDELBROT_HEIGHT,
        ensures
            (point.0 as int, point.1 as int) == self.view.plane_point(
                x as int,
                y as int,
                MANDELBROT_WIDTH as int,
                MANDELBROT_HEIGHT as int,
            ),
    {
        self.view.pixel_to_plane(x, y, MANDELBROT_WIDTH as u32, MANDELBROT_HEIGHT as u32)
    }

    /// Recentres the view on a plane point and scales it by
    /// `numerator / denominator`, then re-evaluates the mode and the bit
    /// width and asks for a new frame.  Returns whether the mode changed.
    ///
    /// A change that would leave no viewport is not made; the new frame is
    /// asked for all the same.
    pub fn update_bounds(
        &mut self,
        center_re: i64,
        center_im: i64,
        numerator: u32,
        denominator: u32,
    ) -> (mode_changed: bool)
        requires
            old(self).wf(),
        ensures
            final(self).wf(),
            final(self).view == old(self).view.changed(
                center_re as int,
                center_im as int,
                numerator as int,
                denominator as int,
            ),
            old(self).view.admits(
                center_re as int,
                center_im as int,
                numerator as int,
                denominator as int,
            ) ==> {
                &&& final(self).view.spec_center() == (center_re as int, center_im as int)
                &&& final(self).view.spec_width() == scale_by(
                    old(self).view.spec_width(),
                    numerator as int,
                    denominator as int,
                )
                &&& final(self).view.spec_height() == scale_by(
                    old(self).view.spec_height(),
                    numerator as int,
                    denominator as int,
                )
            },
            final(self).needs_redraw,
            final(self).gpu_available == old(self).gpu_available,
            final(self).buffer == old(self).buffer,
            final(self).mandelbrot_buffer == old(self).mandelbrot_buffer,
            mode_changed == (final(self).compute_mode != old(self).compute_mode),
    {
        self.view.zoom(center_re, center_im, numerator, denominator);
        self.needs_redraw = true;
        self.update_compute_mode()
    }

    /// Zooms by `numerator / denominator` around the plane point under the
    /// pixel (`mouse_x`, `mouse_y`).  A pixel in a column beside the fractal
    /// area, on the legend, is ignored: the state stays as it is.  Every
    /// other pixel counts, in whatever row.  Returns whether the mode
    /// changed.
    pub fn zoom(&mut self, mouse_x: u32, mouse_y: u32, numerator: u32, denominator: u32) -> (mode_changed:
        bool)
        requires
            old(self).wf(),
        ensures
            final(self).wf(),
            final(self).gpu_available == old(self).gpu_available,
            final(self).buffer == old(self).buffer,
            final(self).mandelbrot_buffer == old(self).mandelbrot_buffer,
            mode_changed == (final(self).compute_mode != old(self).compute_mode),
            mouse_x >= MANDELBROT_WIDTH ==> {
                &&& final(self).view == old(self).view
                &&& final(self).needs_redraw == old(self).needs_redraw
                &&& !mode_changed
            },
            mouse_x < MANDELBROT_WIDTH ==> {
                let c = old(self).view.plane_point(
                    mouse_x as int,
                    mouse_y as int,
                    MANDELBROT_WIDTH as int,
                    MANDELBROT_HEIGHT as int,
                );
                &&& final(self).needs_redraw
                &&& final(self).view == old(self).view.changed(
                    c.0,
                    c.1,
                    numerator as int,
                    denominator as int,
                )
                &&& old(self).view.admits(c.0, c.1, numerator as int, denominator as int) ==> {
                    &&& final(self).view.spec_center() == c
                    &&& final(self).view.spec_width() == scale_by(
                        old(self).view.spec_width(),
                        numerator as int,
                        denominator as int,
                    )
                    &&& final(self).view.spec_height() == scale_by(
                        old(self).view.spec_height(),
                        numerator as int,
                        denominator as int,
                    )
                }
            },
    {
        if mouse_x >= MANDELBROT_WIDTH as u32 {
            return false;
        }
        let (cx, cy) = self.view.pixel_to_plane_unbounded(
            mouse_x,
            mouse_y,
            MANDELBROT_WIDTH as u32,
            MANDELBROT_HEIGHT as u32,
        );
        let reach: i128 = EXTENT as i128;
        if cx < -reach || cx > reach || cy < -reach || cy > reach {
            // A centre beyond the extent of the plane admits no view.
            self.needs_redraw = true;
            return self.update_compute_mode();
        }
        self.update_bounds(cx as i64, cy as i64, numerator, denominator)
    }

    /// Moves the plane point under the pixel (`mouse_x`, `mouse_y`) to the
    /// centre of the view; the width, the height, the zoom factor, the mode
    /// and the bit width stay as they are.  A pixel in a column beside the
    /// fractal area is ignored.  Returns whether the mode changed, which it
    /// never does.
    pub fn on_pan(&mut self, mouse_x: u32, mouse_y: u32) -> (mode_changed: bool)
        requires
            old(self).wf(),
        ensures
            final(self).wf(),
            final(self).gpu_available == old(self).gpu_available,
            final(self).buffer == old(self).buffer,
            final(self).mandelbrot_buffer == old(self).mandelbrot_buffer,
            final(self).view.spec_width() == old(self).view.spec_width(),
            final(self).view.spec_height() == old(self).view.spec_height(),
            final(self).view.spec_zoom_factor() == old(self).view.spec_zoom_factor(),
            final(self).view.precision == old(self).view.precision,
            !mode_changed,
            final(self).compute_mode == old(self).compute_mode,
            mouse_x >= MANDELBROT_WIDTH ==> {
                &&& final(self).view == old(self).view
                &&& final(self).needs_redraw == old(self).needs_redraw
            },
            mouse_x < MANDELBROT_WIDTH ==> {
                let c = old(self).view.plane_point(
                    mouse_x as int,
                    mouse_y as int,
                    MANDELBROT_WIDTH as int,
                    MANDELBROT_HEIGHT as int,
                );
                &&& final(self).needs_redraw
                &&& final(self).view == old(self).view.changed(c.0, c.1, 1, 1)
                &&& old(self).view.admits(c.0, c.1, 1, 1) ==> final(self).view.spec_center() == c
            },
    {
        proof {
            let w = self.view.spec_width();
            let h = self.view.spec_height();
            assert(w * 1 == w && h * 1 == h) by (nonlinear_arith);
        }
        self.zoom(mouse_x, mouse_y, 1, 1)
    }

    /// One step of the mouse wheel over the pixel (`px`, `py`): zooms in by
    /// 4 / 5 or out by 5 / 4.  Returns whether the mode changed.
    pub fn on_zoom(&mut self, px: u32, py: u32, direction: ZoomDirection) -> (mode_changed: bool)
        requires
            old(self).wf(),
        ensures
            final(self).wf(),
            final(self).gpu_available == old(self).gpu_available,
            final(self).buffer == old(self).buffer,
            final(self).mandelbrot_buffer == old(self).mandelbrot_buffer,
            mode_changed == (final(self).compute_mode != old(self).compute_mode),
            px >= MANDELBROT_WIDTH ==> {
                &&& final(self).view == old(self).view
                &&& final(self).needs_redraw == old(self).needs_redraw
            },
            px < MANDELBROT_WIDTH ==> {
                let c = old(self).view.plane_point(
                    px as int,
                    py as int,
                    MANDELBROT_WIDTH as int,
                    MANDELBROT_HEIGHT as int,
                );
                let ratio = if direction == ZoomDirection::In {
                    ZOOM_IN
                } else {
                    ZOOM_OUT
                };
                &&& final(self).needs_redraw
                &&& final(self).view == old(self).view.changed(
                    c.0,
                    c.1,
                    ratio.0 as int,
                    ratio.1 as int,
                )
            },
    {
        match direction {
            ZoomDirection::In => self.zoom(px, py, ZOOM_IN.0, ZOOM_IN.1),
            ZoomDirection::Out => self.zoom(px, py, ZOOM_OUT.0, ZOOM_OUT.1),
        }
    }

    /// The mode, the bit width, the centre and the zoom factor of the view.
    pub fn status(&self) -> (s: Status)
        requires
            self.wf(),
        ensures
            s.mode == self.compute_mode,
            s.mode == mode_for(self.view.spec_zoom_factor(), self.gpu_available),
            s.precision_bits == self.view.precision,
            (s.center.0 as int, s.center.1 as int) == self.view.spec_center(),
            s.zoom_factor == self.view.spec_zoom_factor(),
    {
        Status {
            mode: self.compute_mode,
            precision_bits: self.view.precision,
            center: self.view.center(),
            zoom_factor: self.view.zoom_factor(),
        }
    }

    /// The window buffer, row-major, one `0xRRGGBB` value per pixel.
    pub fn current_buffer(&self) -> (buffer: &Vec<u32>)
        ensures
            buffer@ == self.buffer@,
    {
        &self.buffer
    }

    /// Draws the legend into the window buffer.
    pub fn draw_colorbar(&mut self)
        requires
            old(self).buffer@.len() == WINDOW_HEIGHT * WINDOW_WIDTH,
        ensures
            final(self).buffer@.len() == old(self).buffer@.len(),
            forall|i: int|
                0 <= i < old(self).buffer@.len() ==> #[trigger] final(self).buffer@[i]
                    == legend_pixel(i, old(self).buffer@[i]),
            final(self).view == old(self).view,
            final(self).compute_mode == old(self).compute_mode,
            final(self).gpu_available == old(self).gpu_available,
            final(self).mandelbrot_buffer == old(self).mandelbrot_buffer,
            final(self).needs_redraw == old(self).needs_redraw,
    {
        draw_colorbar(self.buffer.as_mut_slice());
    }

    /// Copies the fractal area into the window buffer.
    pub fn compose_buffer(&mut self)
        requires
            old(self).buffer@.len() == WINDOW_HEIGHT * WINDOW_WIDTH,
            old(self).mandelbrot_buffer@.len() == MANDELBROT_HEIGHT * MANDELBROT_WIDTH,
        ensures
            final(self).buffer@.len() == old(self).buffer@.len(),
            final(self).composed(),
            final(self).legend_kept(*old(self)),
            final(self).view == old(self).view,
            final(self).compute_mode == old(self).compute_mode,
            final(self).gpu_available == old(self).gpu_available,
            final(self).mandelbrot_buffer == old(self).mandelbrot_buffer,
            final(self).needs_redraw == old(self).needs_redraw,
            old(self).wf() ==> final(self).wf(),
    {
        compose_buffer(&mut self.buffer, &self.mandelbrot_buffer);
    }

    /// Renders the frame of the current view as far as the fixed-width
    /// backend is in charge of it, and says what is left to do otherwise.
    ///
    /// In the fixed-width mode the fractal area is rendered and composed,
    /// and no new frame is needed.  In the other two modes nothing changes:
    /// the step names the backend that has to deliver iteration counts.
    pub fn render_mandelbrot(&mut self) -> (step: RenderStep)
        requires
            old(self).wf(),
        ensures
            final(self).wf(),
            final(self).view == old(self).view,
            final(self).compute_mode == old(self).compute_mode,
            final(self).gpu_available == old(self).gpu_available,
            step == (match old(self).compute_mode {
                ComputeMode::CpuF64 => RenderStep::Done,
                ComputeMode::Gpu => RenderStep::Device {
                    params: device_params_of(old(self).view),
                },
                ComputeMode::CpuHighPrecision => RenderStep::HighPrecision {
                    precision: old(self).view.precision,
                    width: HP_RENDER_WIDTH as u32,
                    height: HP_RENDER_HEIGHT as u32,
                },
            }),
            step != RenderStep::Done ==> {
                &&& final(self).buffer == old(self).buffer
                &&& final(self).mandelbrot_buffer == old(self).mandelbrot_buffer
                &&& final(self).needs_redraw == old(self).needs_redraw
            },
            step == RenderStep::Done ==> {
                &&& !final(self).needs_redraw
                &&& final(self).composed()
                &&& final(self).legend_kept(*old(self))
                &&& forall|i: int|
                    0 <= i < MANDELBROT_HEIGHT * MANDELBROT_WIDTH
                        ==> #[trigger] final(self).mandelbrot_buffer@[i] == pixel_color(
                        old(self).view,
                        i % (MANDELBROT_WIDTH as int),
                        i / (MANDELBROT_WIDTH as int),
                        MANDELBROT_WIDTH as int,
                        MANDELBROT_HEIGHT as int,
                        MAX_ITER as nat,
                    )
            },
    {
        match self.compute_mode {
            ComputeMode::CpuF64 => {
                self.mandelbrot_buffer = render_fast(
                    &self.view,
                    MANDELBROT_WIDTH as u32,
                    MANDELBROT_HEIGHT as u32,
                    MAX_ITER,
                );
                self.compose_buffer();
                self.needs_redraw = false;
                RenderStep::Done
            },
            ComputeMode::Gpu => RenderStep::Device { params: device_params(&self.view) },
            ComputeMode::CpuHighPrecision => RenderStep::HighPrecision {
                precision: self.view.precision,
                width: HP_RENDER_WIDTH as u32,
                height: HP_RENDER_HEIGHT as u32,
            },
        }
    }

    /// Takes the iteration counts of the fractal area, one per pixel and
    /// row-major, as a graphics device or a pool of threads computed them,
    /// colours them and composes the frame.
    pub fn accept_frame(&mut self, iterations: &Vec<u32>)
        requires
            old(self).wf(),
            iterations@.len() == MANDELBROT_HEIGHT * MANDELBROT_WIDTH,
        ensures
            final(self).wf(),
            final(self).composed(),
            final(self).legend_kept(*old(self)),
            !final(self).needs_redraw,
            final(self).view == old(self).view,
            final(self).compute_mode == old(self).compute_mode,
            final(self).gpu_available == old(self).gpu_available,
            forall|i: int|
                0 <= i < MANDELBROT_HEIGHT * MANDELBROT_WIDTH
                    ==> #[trigger] final(self).mandelbrot_buffer@[i] == color_of(
                    iterations@[i] as int,
                    MAX_ITER as int,
                ),
    {
        self.mandelbrot_buffer = colorize(iterations, MAX_ITER);
        self.compose_buffer();
        self.needs_redraw = false;
    }

    /// Takes the iteration counts that the arbitrary-precision backend
    /// computed for the reduced grid, colours them, centres them in the
    /// fractal area and composes the frame.
    pub fn accept_high_precision_frame(&mut self, iterations: &Vec<u32>)
        requires
            old(self).wf(),
            iterations@.len() == HP_RENDER_HEIGHT * HP_RENDER_WIDTH,
        ensures
            final(self).wf(),
            final(self).composed(),
            final(self).legend_kept(*old(self)),
            !final(self).needs_redraw,
            final(self).view == old(self).view,
            final(self).compute_mode == old(self).compute_mode,
            final(self).gpu_available == old(self).gpu_available,
            forall|i: int|
                0 <= i < MANDELBROT_HEIGHT * MANDELBROT_WIDTH
                    ==> #[trigger] final(self).mandelbrot_buffer@[i] == centered_pixel(
                    Seq::new(
                        iterations@.len(),
                        |k: int| color_of(iterations@[k] as int, MAX_ITER as int) as u32,
                    ),
                    HP_RENDER_WIDTH as int,
                    HP_RENDER_HEIGHT as int,
                    MANDELBROT_WIDTH as int,
                    MANDELBROT_HEIGHT as int,
                    HP_BACKGROUND,
                    i,
                ),
    {
        self.mandelbrot_buffer = render_high_precision(iterations, MAX_ITER);
        self.compose_buffer();
        self.needs_redraw = false;
    }
}

/// A buffer of `len` black pixels.
fn zeroes(len: usize) -> (buffer: Vec<u32>)
    ensures
        buffer@.len() == len,
        forall|i: int| 0 <= i < len ==> #[trigger] buffer@[i] == 0,
{
    let mut buffer: Vec<u32> = Vec::new();
    while buffer.len() < len
        invariant
            buffer@.len() <= len,
            forall|i: int| 0 <= i < buffer@.len() ==> #[trigger] buffer@[i] == 0,
        decreases len - buffer@.len(),
    {
        buffer.push(0);
    }
    buffer
}

/// The mode and the bit width have no memory: two viewers with views of
/// the same zoom factor and bit width, and with the same answer on the
/// graphics device, get the same mode and the same bit width from
/// `update_compute_mode`, whatever mode each was in before.
pub proof fn lemma_mode_has_no_memory(a: ViewerState, b: ViewerState)
    requires
        a.view.wf(),
        b.view.wf(),
        a.view.spec_zoom_factor().numerator * b.view.spec_zoom_factor().denominator
            == b.view.spec_zoom_factor().numerator * a.view.spec_zoom_factor().denominator,
        a.view.precision == b.view.precision,
        a.gpu_available == b.gpu_available,
    ensures
        mode_for(a.view.spec_zoom_factor(), a.gpu_available) == mode_for(
            b.view.spec_zoom_factor(),
            b.gpu_available,
        ),
        precision_after(a.view.precision as int, a.view.spec_zoom_factor()) == precision_after(
            b.view.precision as int,
            b.view.spec_zoom_factor(),
        ),
        a.view.with_settled_precision().precision == b.view.with_settled_precision().precision,
{
    lemma_policy_is_function_of_zoom(
        a.view.spec_zoom_factor(),
        b.view.spec_zoom_factor(),
        a.gpu_available,
    );
}

} // verus!
