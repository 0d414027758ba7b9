//! Building blocks for generating island and ocean maps on a wrapping grid:
//! the grids themselves, a k-d tree for nearest-coast queries, land and sea
//! classification, upscaling, and BMP output.

pub mod array2d;
pub mod bitmap;
pub mod coast;
pub mod color;
pub mod grid;
pub mod kd_tree;
pub mod upscale;
pub mod vectors;
