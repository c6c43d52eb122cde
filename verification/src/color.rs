//! RGBA colors and the fixed side-shading rule.

use vstd::prelude::*;

verus! {

/// An RGBA color sample, one byte per channel.
#[derive(Clone, Copy, Debug, PartialEq, Eq, Structural)]
pub struct Color {
    pub r: u8,
    pub g: u8,
    pub b: u8,
    pub a: u8,
}

impl Color {
    pub fn new(r: u8, g: u8, b: u8, a: u8) -> (c: Color)
        ensures
            c == (Color { r, g, b, a }),
    {
        Color { r, g, b, a }
    }
}

/// One color channel darkened to 7/10 of its value (the fixed-point
/// counterpart of multiplying by 0.7, truncating).
pub open spec fn darkened_channel(v: u8) -> u8 {
    ((v as int) * 7 / 10) as u8
}

/// A whole color darkened channel-wise by the shading factor, alpha kept.
pub open spec fn darkened(c: Color) -> Color {
    Color {
        r: darkened_channel(c.r),
        g: darkened_channel(c.g),
        b: darkened_channel(c.b),
        a: c.a,
    }
}

/// The fixed directional shading factor: every color channel is scaled by
/// 7/10 (truncating), the alpha channel is kept. The result never exceeds
/// the input in any channel, so shaded walls are never brighter.
pub fn darken(c: Color) -> (d: Color)
    ensures
        d == darkened(c),
        d.r == darkened_channel(c.r),
        d.g == darkened_channel(c.g),
        d.b == darkened_channel(c.b),
        d.a == c.a,
        d.r <= c.r,
        d.g <= c.g,
        d.b <= c.b,
{
    Color {
        r: (c.r as u32 * 7 / 10) as u8,
        g: (c.g as u32 * 7 / 10) as u8,
        b: (c.b as u32 * 7 / 10) as u8,
        a: c.a,
    }
}

/// Darkening a color never raises any channel: a shaded ("side 1") wall
/// slice is at most as bright as the unshaded slice of the same tile.
pub proof fn lemma_darken_never_brightens(c: Color)
    ensures
        darkened_channel(c.r) <= c.r,
        darkened_channel(c.g) <= c.g,
        darkened_channel(c.b) <= c.b,
{
}

} // verus!
