//! Turns an 8-bit RGBA PNG into an SVG document that holds one unit
//! rectangle per pixel.
//!
//! The pipeline has three steps: `decode` reads the PNG's first frame into a
//! flat buffer of RGBA samples, `rows` cuts that buffer into image rows, and
//! `svg` writes the document.

pub mod decode;
pub mod error;
pub mod rows;
pub mod svg;
