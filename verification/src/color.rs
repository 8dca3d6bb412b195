//! An 8-bit RGB color value.

use vstd::prelude::*;

verus! {

/// One 8-bit-per-channel RGB color.
#[derive(Debug, Clone, Copy, PartialEq, Eq, Structural)]
pub struct Rgb {
    pub r: u8,
    pub g: u8,
    pub b: u8,
}

impl Rgb {
    pub fn new(r: u8, g: u8, b: u8) -> (c: Rgb)
        ensures
            c == (Rgb { r, g, b }),
    {
        Rgb { r, g, b }
    }
}

/// A color from its three channels.
pub open spec fn spec_rgb(r: u8, g: u8, b: u8) -> Rgb {
    Rgb { r, g, b }
}

/// A color packed into one integer, `r:g:b` from high byte to low byte.
/// Packing is injective: distinct colors pack to distinct keys.
pub open spec fn spec_pack_rgb(c: Rgb) -> int {
    c.r as int * 0x10000 + c.g as int * 0x100 + c.b as int
}

/// Packs a color for use as an exact-match lookup key.
pub fn pack_rgb(c: Rgb) -> (k: u32)
    ensures
        k == spec_pack_rgb(c),
{
    (c.r as u32) * 0x10000 + (c.g as u32) * 0x100 + (c.b as u32)
}

/// Packing never conflates two colors.
pub proof fn lemma_pack_rgb_injective(a: Rgb, b: Rgb)
    requires
        spec_pack_rgb(a) == spec_pack_rgb(b),
    ensures
        a == b,
{
}

} // verus!
