//! An adaptive-precision engine for exploring the Mandelbrot set.
//!
//! The plane is held in fixed-point coordinates.  A viewport names the
//! rectangle on display; the precision policy derives the compute mode and
//! the bit width from its zoom factor; the kernel and the backends turn
//! plane points into iteration counts and colours; the viewer ties them
//! together behind the entry points of an interactive program.

pub mod colors;
pub mod constants;
pub mod fixed;
pub mod font;
pub mod grid;
pub mod kernel;
pub mod legend;
pub mod policy;
pub mod power;
pub mod render;
pub mod viewer;
pub mod viewport;
pub mod wide;
