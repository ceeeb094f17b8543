//! Escape-time fractal field: colour anchors, palettes, escape counting and
//! raster assembly, with their contracts proved.
pub mod color;
pub mod palette;
pub mod escape;
pub mod raster;
pub mod controller;
