use vstd::prelude::*;

verus! {

/// An 8-bit-per-channel RGBA colour.
#[derive(Clone, Copy, Debug, PartialEq, Eq, Structural)]
pub struct Rgba32 {
    pub r: u8,
    pub g: u8,
    pub b: u8,
    pub a: u8,
}

impl Rgba32 {
    pub fn new(r: u8, g: u8, b: u8, a: u8) -> (c: Rgba32)
        ensures
            c == (Rgba32 { r, g, b, a }),
    {
        Rgba32 { r, g, b, a }
    }

    /// The fully transparent black colour.
    pub open spec fn zero_spec() -> Rgba32 {
        Rgba32 { r: 0, g: 0, b: 0, a: 0 }
    }

    /// The fully transparent black colour.
    pub fn zero() -> (c: Rgba32)
        ensures
            c == Rgba32::zero_spec(),
    {
        Rgba32 { r: 0, g: 0, b: 0, a: 0 }
    }
}

/// Integer value of `clamp(v, 0, 255)`.
pub open spec fn clamp_byte(v: int) -> u8 {
    if v > 255 {
        255
    } else if v < 0 {
        0
    } else {
        v as u8
    }
}

/// Clamps a signed colour component into the byte range.
pub fn color_clamp(color: i32) -> (r: u8)
    ensures
        r == clamp_byte(color as int),
{
    if color > 255 {
        return 255;
    }
    if color < 0 {
        return 0;
    }
    color as u8
}

} // verus!
