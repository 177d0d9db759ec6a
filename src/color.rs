use vstd::prelude::*;

verus! {

/// An RGBA color with four independent 8-bit channels.
#[derive(Clone, Copy, Debug, PartialEq, Eq, Structural, Hash)]
pub struct Color {
    pub r: u8,
    pub g: u8,
    pub b: u8,
    pub a: u8,
}

pub open spec fn spec_transparent() -> Color {
    Color { r: 0, g: 0, b: 0, a: 0 }
}

pub open spec fn spec_black() -> Color {
    Color { r: 0, g: 0, b: 0, a: 255 }
}

/// The fully transparent color: every channel zero.
pub fn transparent() -> (c: Color)
    ensures
        c == spec_transparent(),
{
    Color { r: 0, g: 0, b: 0, a: 0 }
}

/// Opaque black, the default drawing color.
pub fn black() -> (c: Color)
    ensures
        c == spec_black(),
{
    Color { r: 0, g: 0, b: 0, a: 255 }
}

impl Color {
    pub fn new(r: u8, g: u8, b: u8, a: u8) -> (c: Color)
        ensures
            c == (Color { r, g, b, a }),
    {
        Color { r, g, b, a }
    }

    /// The red, green and blue channels, without alpha.
    pub fn rgb(&self) -> (c: [u8; 3])
        ensures
            c@ == seq![self.r, self.g, self.b],
    {
        [self.r, self.g, self.b]
    }

    /// The four channels in the order r, g, b, a.
    pub fn rgba(&self) -> (c: [u8; 4])
        ensures
            c@ == seq![self.r, self.g, self.b, self.a],
    {
        [self.r, self.g, self.b, self.a]
    }
}

} // verus!
