//! RGBA colors with one byte per channel.

use vstd::prelude::*;

verus! {

/// An RGBA color; each channel ranges over 0..=255.
#[derive(Clone, Copy, Debug, PartialEq, Eq, Structural)]
pub struct Color {
    pub r: u8,
    pub g: u8,
    pub b: u8,
    pub a: u8,
}

impl Color {
    /// Builds a color from its four channels.
    pub fn new(r: u8, g: u8, b: u8, a: u8) -> (c: Color)
        ensures
            c == (Color { r, g, b, a }),
    {
        Color { r, g, b, a }
    }

    /// Unpacks a color stored as `0xBBGGRRAA`: the alpha channel sits in the
    /// lowest byte, then red, green and blue above it.
    pub fn from_packed(value: u32) -> (c: Color)
        ensures
            c.a == value & 0xFF,
            c.r == (value >> 8) & 0xFF,
            c.g == (value >> 16) & 0xFF,
            c.b == (value >> 24) & 0xFF,
    {
        let a = (value & 0xFF) as u8;
        let r = ((value >> 8) & 0xFF) as u8;
        let g = ((value >> 16) & 0xFF) as u8;
        let b = ((value >> 24) & 0xFF) as u8;
        proof {
            assert(value & 0xFF < 256 && (value >> 8) & 0xFF < 256 && (value >> 16) & 0xFF < 256
                && (value >> 24) & 0xFF < 256) by (bit_vector);
        }
        Color { r, g, b, a }
    }

    /// Opaque red.
    pub fn red() -> (c: Color)
        ensures
            c == (Color { r: 255u8, g: 0u8, b: 0u8, a: 255u8 }),
    {
        Color { r: 255, g: 0, b: 0, a: 255 }
    }

    /// Opaque green.
    pub fn green() -> (c: Color)
        ensures
            c == (Color { r: 0u8, g: 255u8, b: 0u8, a: 255u8 }),
    {
        Color { r: 0, g: 255, b: 0, a: 255 }
    }

    /// Opaque blue.
    pub fn blue() -> (c: Color)
        ensures
            c == (Color { r: 0u8, g: 0u8, b: 255u8, a: 255u8 }),
    {
        Color { r: 0, g: 0, b: 255, a: 255 }
    }
}

} // verus!
