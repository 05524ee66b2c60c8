//! A progressive terminal path tracer.
//!
//! The numeric core works on signed fixed-point scalars (16 fractional bits),
//! so every arithmetic step has an exact, verifiable meaning. Geometry,
//! materials, the scene, the time-sliced renderer and the subpixel-to-glyph
//! mapper all live here; the interactive terminal host is a thin layer on top.

pub mod fixed;
pub mod maths;
pub mod buffer_display;
pub mod camera;
pub mod color;
pub mod geometry;
pub mod materials;
pub mod random;
pub mod renderer;
pub mod scene;
pub mod terminal;
