//! Renders raster images and procedurally drawn shapes as colored text in a
//! terminal: a two-color-per-cell character-ramp quantizer, a layered shape
//! compositor, and a diff-based incremental redraw engine.

pub mod canvas;
pub mod cell;
pub mod color;
pub mod geometry;
pub mod image;
pub mod term;

pub use cell::Cell;
pub use color::Color;
