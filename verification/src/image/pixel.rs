use vstd::prelude::*;

verus! {

/// A colour with red, green, blue and alpha channels.
#[derive(Debug, Copy, Clone, PartialEq, Eq, Structural)]
pub struct Rgba {
    pub r: u8,
    pub g: u8,
    pub b: u8,
    pub a: u8,
}

impl Rgba {
    /// The colour whose channels are the four bytes of `rgba`, red in the
    /// most significant byte and alpha in the least significant one.
    pub open spec fn spec_from_i32(rgba: i32) -> Rgba {
        Rgba {
            r: ((rgba >> 24) & 0xFF) as u8,
            g: ((rgba >> 16) & 0xFF) as u8,
            b: ((rgba >> 8) & 0xFF) as u8,
            a: ((rgba >> 0) & 0xFF) as u8,
        }
    }

    /// Unpacks a colour from the four bytes of `rgba`.
    pub fn from_i32(rgba: i32) -> (c: Rgba)
        ensures
            c == Self::spec_from_i32(rgba),
    {
        assert(0 <= ((rgba >> 24) & 0xFF) < 256) by (bit_vector);
        assert(0 <= ((rgba >> 16) & 0xFF) < 256) by (bit_vector);
        assert(0 <= ((rgba >> 8) & 0xFF) < 256) by (bit_vector);
        assert(0 <= ((rgba >> 0) & 0xFF) < 256) by (bit_vector);
        Rgba {
            r: ((rgba >> 24) & 0xFF) as u8,
            g: ((rgba >> 16) & 0xFF) as u8,
            b: ((rgba >> 8) & 0xFF) as u8,
            a: ((rgba >> 0) & 0xFF) as u8,
        }
    }
}

/// Conversion of a cell to a grey level.
pub trait ToLuma {
    fn to_luma(&self) -> u8;
}

/// Conversion of a cell to a colour.
pub trait ToRgba {
    fn to_rgba(&self) -> Rgba;
}

impl ToLuma for u8 {
    /// An intensity is its own grey level.
    fn to_luma(&self) -> (l: u8)
        ensures
            l == *self,
    {
        *self
    }
}

impl ToRgba for u8 {
    /// An intensity is the colour with that intensity in every channel.
    fn to_rgba(&self) -> (c: Rgba)
        ensures
            c == (Rgba { r: *self, g: *self, b: *self, a: *self }),
    {
        let v = *self;
        Rgba { r: v, g: v, b: v, a: v }
    }
}

} // verus!
