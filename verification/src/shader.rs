//! Colors, and the shading of a surface by its normal.

use crate::fixed::ONE;
use crate::vector::{SpecVector3, Vector3};
use vstd::prelude::*;

verus! {

/// The mathematical value of a [`Color`].
pub struct SpecColor {
    pub r: int,
    pub g: int,
    pub b: int,
}

impl SpecColor {
    pub open spec fn black() -> SpecColor {
        SpecColor { r: 0, g: 0, b: 0 }
    }

    pub open spec fn plus(self, other: SpecColor) -> SpecColor {
        SpecColor { r: self.r + other.r, g: self.g + other.g, b: self.b + other.b }
    }

    /// Every channel lies between zero and `bound`.
    pub open spec fn within(self, bound: int) -> bool {
        &&& 0 <= self.r <= bound
        &&& 0 <= self.g <= bound
        &&& 0 <= self.b <= bound
    }

    /// Every channel lies between zero and one.
    pub open spec fn in_gamut(self) -> bool {
        self.within(ONE as int)
    }
}

/// The channel that shows the component `n` of a normal: the range from
/// minus one to one is mapped onto the range from zero to one.
pub open spec fn shaded_channel(n: int) -> int {
    (n + ONE) / 2
}

/// The color that shows a normal.
pub open spec fn shaded(normal: SpecVector3) -> SpecColor {
    SpecColor { r: shaded_channel(normal.x), g: shaded_channel(normal.y), b: shaded_channel(normal.z) }
}

/// The 8-bit value of a channel: the channel times 255, with the fraction
/// dropped.
pub open spec fn quantized_channel(c: int) -> int {
    (c * 255) / (ONE as int)
}

/// The 8-bit values of the channels of a color.
pub open spec fn quantized(color: SpecColor) -> (u8, u8, u8) {
    (quantized_channel(color.r) as u8, quantized_channel(color.g) as u8, quantized_channel(color.b) as u8)
}

/// A color with fixed-point channels: red, green and blue.
#[derive(Clone, Copy, PartialEq, Eq, Debug, Structural)]
pub struct Color {
    pub r: i64,
    pub g: i64,
    pub b: i64,
}

impl View for Color {
    type V = SpecColor;

    open spec fn view(&self) -> SpecColor {
        SpecColor { r: self.r as int, g: self.g as int, b: self.b as int }
    }
}

/// A normal is shown in a color of the gamut.
pub proof fn lemma_shaded_in_gamut(normal: SpecVector3)
    requires
        normal.within(ONE as int),
    ensures
        shaded(normal).in_gamut(),
{
}

/// The color that shows a surface whose normal is `normal`.
pub fn shade(normal: &Vector3) -> (color: Color)
    requires
        normal@.within(ONE as int),
    ensures
        color@ == shaded(normal@),
        color@.in_gamut(),
{
    Color { r: (normal.x + ONE) / 2, g: (normal.y + ONE) / 2, b: (normal.z + ONE) / 2 }
}

/// The 8-bit values of the channels of a color of the gamut.
pub fn quantize(color: &Color) -> (rgb: (u8, u8, u8))
    requires
        color@.in_gamut(),
    ensures
        rgb == quantized(color@),
        rgb.0 == quantized_channel(color.r as int),
        rgb.1 == quantized_channel(color.g as int),
        rgb.2 == quantized_channel(color.b as int),
{
    (((color.r * 255) / ONE) as u8, ((color.g * 255) / ONE) as u8, ((color.b * 255) / ONE) as u8)
}

} // verus!
