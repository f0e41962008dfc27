//! Text-art rendering of raster images.
//!
//! The crate samples a source image on a coarse grid, computes the average
//! relative luminance of each grid cell, and maps that brightness to a glyph
//! from an ordered shading palette.  Command-line argument handling for the
//! accompanying tool lives in [`args_parser`]; the rendering pipeline lives
//! in [`textify`].

pub mod args_parser;
pub mod textify;
