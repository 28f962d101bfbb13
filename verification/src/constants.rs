//! Sizes and limits that the whole viewer shares.

use vstd::prelude::*;

verus! {

/// Width of the fractal area in pixels.
pub const MANDELBROT_WIDTH: usize = 800;

/// Height of the fractal area in pixels.
pub const MANDELBROT_HEIGHT: usize = 600;

/// Width of the reduced grid that the arbitrary-precision backend fills.
pub const HP_RENDER_WIDTH: usize = 200;

/// Height of the reduced grid that the arbitrary-precision backend fills.
pub const HP_RENDER_HEIGHT: usize = 150;

/// Width of the legend beside the fractal area.
pub const COLORBAR_WIDTH: usize = 60;

/// Distance of the colour bar from the fractal area.
pub const COLORBAR_MARGIN: usize = 20;

/// Width of the colour bar itself.
pub const COLORBAR_BAR_WIDTH: usize = 20;

/// Width of the window: the fractal area and the legend.
pub const WINDOW_WIDTH: usize = 860;

/// Height of the window.
pub const WINDOW_HEIGHT: usize = 600;

/// Iteration limit of every kernel and every mode.
pub const MAX_ITER: u32 = 256;

/// Colour around the reduced grid of the arbitrary-precision backend.
pub const HP_BACKGROUND: u32 = 0x202020;

/// Ratio by which one step of zooming in scales the view: 4 / 5.
pub const ZOOM_IN: (u32, u32) = (4, 5);

/// Ratio by which one step of zooming out scales the view: 5 / 4.
pub const ZOOM_OUT: (u32, u32) = (5, 4);

} // verus!
