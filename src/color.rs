//! Colors of tile cells, as sRGB bytes with an alpha byte.
use vstd::prelude::*;

verus! {

/// A color as sRGB channel bytes and an alpha byte (255 is opaque).
#[derive(Clone, Copy, Debug, PartialEq, Eq, Structural)]
pub struct Color {
    pub r: u8,
    pub g: u8,
    pub b: u8,
    pub a: u8,
}

impl Color {
    /// The opaque color with sRGB bytes `(r, g, b)`.
    pub fn from_rgb(r: u8, g: u8, b: u8) -> (c: Self)
        ensures
            c == (Color { r, g, b, a: 255 }),
    {
        Color { r, g, b, a: 255 }
    }
}

} // verus!
