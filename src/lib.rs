//! QOI image decoder for embedded applications.
//!
//! The decoder reads a QOI byte buffer, checks its header and end marker, and
//! produces the image's RGB pixels one at a time in row-major order.
use vstd::prelude::*;

pub mod color;
pub mod decoder;
pub mod image;

pub use color::Color;
pub use decoder::PixelsIter;
pub use image::{Error, Qoi};

verus! {

} // verus!
