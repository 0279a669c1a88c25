//! Pixel colors as the rendering surface stores them.

use vstd::prelude::*;

verus! {

/// A color of the rendering surface: opacity in the top byte, then red,
/// green and blue.
#[derive(Clone, Copy, Debug, PartialEq, Eq, Structural)]
pub struct Argb {
    pub data: u32,
}

/// The surface color made of an opacity and the low 24 bits of `rgb`.
pub open spec fn blend(alpha: u8, rgb: u32) -> u32 {
    ((alpha as u32) << 24) | (rgb & 0xFFFFFF)
}

impl Argb {
    /// Joins the session's opacity with a palette color; whatever `rgb`
    /// carries above its low 24 bits is dropped.
    pub fn with_alpha(alpha: u8, rgb: u32) -> (color: Argb)
        ensures
            color.data == blend(alpha, rgb),
    {
        Argb { data: ((alpha as u32) << 24) | (rgb & 0xFFFFFF) }
    }
}

/// The opacity of a blended color is the one it was given, and its red,
/// green and blue are those of the palette color.
pub proof fn lemma_blend_keeps_channels(alpha: u8, rgb: u32)
    ensures
        blend(alpha, rgb) >> 24 == alpha,
        blend(alpha, rgb) & 0xFFFFFF == rgb & 0xFFFFFF,
{
    assert((((alpha as u32) << 24) | (rgb & 0xFFFFFF)) >> 24 == alpha) by (bit_vector);
    assert((((alpha as u32) << 24) | (rgb & 0xFFFFFF)) & 0xFFFFFF == rgb & 0xFFFFFF)
        by (bit_vector);
}

} // verus!
