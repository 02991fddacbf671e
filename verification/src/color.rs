//! Colours of three 8-bit channels.

use vstd::prelude::*;

verus! {

/// The highest level a channel can hold.
pub const CHANNEL_MAX: u8 = 255;

/// A colour: red, green and blue, each from 0 to 255.
#[derive(Debug, PartialEq, Eq, Structural, Clone, Copy)]
pub struct Color {
    pub r: u8,
    pub g: u8,
    pub b: u8,
}

/// The level a channel holds when `level` is asked of it: `level` itself as
/// far as the channel reaches, and the channel's maximum beyond.
pub open spec fn saturated(level: int) -> int {
    if level > 255 {
        255
    } else {
        level
    }
}

/// Brings a level of any size into a channel without wrapping.
pub fn saturate(level: u64) -> (channel: u8)
    ensures
        channel == saturated(level as int),
{
    if level > 255 {
        CHANNEL_MAX
    } else {
        level as u8
    }
}

/// Saturation never wraps: a channel holds its level or its maximum, and a
/// higher level never gives a lower channel.
pub proof fn lemma_saturation_keeps_order(lower: int, higher: int)
    requires
        0 <= lower <= higher,
    ensures
        0 <= saturated(lower) <= saturated(higher) <= 255,
        saturated(lower) == lower || saturated(lower) == 255,
        lower <= 255 ==> saturated(lower) == lower,
{
}

impl Color {
    pub fn new(r: u8, g: u8, b: u8) -> (color: Color)
        ensures
            color.r == r,
            color.g == g,
            color.b == b,
    {
        Color { r: r, g: g, b: b }
    }

    /// The colour whose channels hold the three levels, each saturated.
    pub fn from_levels(r: u64, g: u64, b: u64) -> (color: Color)
        ensures
            color.r == saturated(r as int),
            color.g == saturated(g as int),
            color.b == saturated(b as int),
    {
        Color { r: saturate(r), g: saturate(g), b: saturate(b) }
    }
}

/// The lighter of the two default floor colours, as contracts name it.
pub open spec fn spec_white() -> Color {
    Color { r: 200, g: 200, b: 200 }
}

/// The darker of the two default floor colours, as contracts name it.
pub open spec fn spec_black() -> Color {
    Color { r: 50, g: 50, b: 50 }
}

/// The lighter of the two default floor colours.
#[verifier::when_used_as_spec(spec_white)]
pub fn white() -> (color: Color)
    ensures
        color == spec_white(),
{
    Color { r: 200, g: 200, b: 200 }
}

/// The darker of the two default floor colours.
#[verifier::when_used_as_spec(spec_black)]
pub fn black() -> (color: Color)
    ensures
        color == spec_black(),
{
    Color { r: 50, g: 50, b: 50 }
}

} // verus!
