//! An 8-bit-per-channel RGB color with an alpha channel.

use vstd::prelude::*;

verus! {

/// An opaque color value as read from a raster image: one byte per channel.
/// The alpha channel is carried along for the renderer but plays no part in
/// the palette logic.
#[derive(Hash, PartialEq, Eq, Structural, Copy, Clone, Debug)]
pub struct Color {
    pub r: u8,
    pub g: u8,
    pub b: u8,
    pub a: u8,
}

impl Color {
    /// Pack four channel bytes into a color.
    pub fn new(r: u8, g: u8, b: u8, a: u8) -> (c: Color)
        ensures
            c == (Color { r, g, b, a }),
    {
        Color { r, g, b, a }
    }
}

} // verus!
