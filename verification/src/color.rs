use vstd::prelude::*;

verus! {

/// An opaque colour with 8 bits per channel.
#[derive(Clone, Copy, Debug, PartialEq, Eq, Structural)]
pub struct RGB8 {
    pub r: u8,
    pub g: u8,
    pub b: u8,
}

/// A colour with 8 bits per channel and an alpha channel, where 0 is fully
/// transparent and 255 is fully opaque.
#[derive(Clone, Copy, Debug, PartialEq, Eq, Structural)]
pub struct RGBA8 {
    pub r: u8,
    pub g: u8,
    pub b: u8,
    pub a: u8,
}

impl RGB8 {
    pub fn new(r: u8, g: u8, b: u8) -> (c: Self)
        ensures
            c == (RGB8 { r, g, b }),
    {
        RGB8 { r, g, b }
    }

    /// The same colour with the given alpha.
    pub fn alpha(self, a: u8) -> (c: RGBA8)
        ensures
            c == (RGBA8 { r: self.r, g: self.g, b: self.b, a }),
    {
        RGBA8 { r: self.r, g: self.g, b: self.b, a }
    }
}

impl RGBA8 {
    pub fn new(r: u8, g: u8, b: u8, a: u8) -> (c: Self)
        ensures
            c == (RGBA8 { r, g, b, a }),
    {
        RGBA8 { r, g, b, a }
    }

    pub open spec fn rgb_spec(self) -> RGB8 {
        RGB8 { r: self.r, g: self.g, b: self.b }
    }

    /// The colour without its alpha channel.
    pub fn rgb(self) -> (c: RGB8)
        ensures
            c == self.rgb_spec(),
    {
        RGB8 { r: self.r, g: self.g, b: self.b }
    }
}

} // verus!
