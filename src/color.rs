//! Colors and the hash that selects a slot of the decoder's color cache.
use vstd::prelude::*;

verus! {

/// An RGB color with eight bits per channel.
#[derive(Clone, Copy, Debug, PartialEq, Eq, Structural, Hash)]
pub struct Color {
    pub r: u8,
    pub g: u8,
    pub b: u8,
}

impl Color {
    /// Builds a color from its three channels.
    pub fn new(r: u8, g: u8, b: u8) -> (c: Color)
        ensures
            c == (Color { r, g, b }),
    {
        Color { r, g, b }
    }

    /// Black: every channel zero.
    pub fn black() -> (c: Color)
        ensures
            c == (Color { r: 0, g: 0, b: 0 }),
    {
        Color { r: 0, g: 0, b: 0 }
    }
}

/// The cache slot of a color with an alpha value: `(3r + 5g + 7b + 11a) mod 64`.
pub open spec fn spec_hash(c: Color, alpha: u8) -> int {
    (3 * c.r + 5 * c.g + 7 * c.b + 11 * alpha) % 64
}

/// Computes the cache slot of a color with an alpha value. The format states
/// the sum in eight-bit wrapping arithmetic; since 64 divides 256, summing in
/// a wider type gives the same slot.
pub fn hash_pixel(c: Color, alpha: u8) -> (h: u8)
    ensures
        h as int == spec_hash(c, alpha),
        h < 64,
{
    let sum: u32 = 3 * (c.r as u32) + 5 * (c.g as u32) + 7 * (c.b as u32) + 11 * (alpha as u32);
    (sum % 64) as u8
}

} // verus!
