//! The color-space converter: sRGB to Oklab and back.
//!
//! The two conversions are pure functions of their arguments alone, but
//! their definitions are chains of non-linear floating-point steps that no
//! short statement captures. The library therefore names their results and
//! carries them as exact bit patterns; everything downstream (bounds,
//! cache, pipeline) is specified over these names.

use crate::color::PerceptualBits;
use crate::color::RgbQ;
use vstd::prelude::*;

verus! {

/// The bit patterns `(l, a, b)` of the Oklab color that the converter
/// produces for the 8-bit sRGB triple `(r, g, b)`.
pub uninterp spec fn oklab_bits_of(r: u8, g: u8, b: u8) -> (u32, u32, u32);

/// The 8-bit sRGB triple `(r, g, b)` that the converter produces for the
/// Oklab color with channel bit patterns `(l, a, b)`.
pub uninterp spec fn srgb_of_oklab_bits(l: u32, a: u32, b: u32) -> (u8, u8, u8);

/// The `a`-channel bit pattern of the Oklab color of a quantized color.
pub open spec fn chroma_a_of(c: RgbQ) -> u32 {
    oklab_bits_of(c.r, c.g, c.b).1
}

/// The `b`-channel bit pattern of the Oklab color of a quantized color.
pub open spec fn chroma_b_of(c: RgbQ) -> u32 {
    oklab_bits_of(c.r, c.g, c.b).2
}

/// The full perceptual bit-pattern triple of a quantized color.
pub open spec fn perceptual_of(c: RgbQ) -> PerceptualBits {
    PerceptualBits {
        l: oklab_bits_of(c.r, c.g, c.b).0,
        a: oklab_bits_of(c.r, c.g, c.b).1,
        b: oklab_bits_of(c.r, c.g, c.b).2,
    }
}

/// Relies on `oklab::srgb_to_oklab`: a pure conversion whose result
/// depends on the three channel values alone.
#[verifier::external_body]
pub fn rgb_to_perceptual(c: RgbQ) -> (p: PerceptualBits)
    ensures
        (p.l, p.a, p.b) == oklab_bits_of(c.r, c.g, c.b),
{
    let o = oklab::srgb_to_oklab(oklab::Rgb { r: c.r, g: c.g, b: c.b });
    PerceptualBits { l: o.l.to_bits(), a: o.a.to_bits(), b: o.b.to_bits() }
}

/// Relies on `oklab::oklab_to_srgb`: a pure conversion whose result
/// depends on the three channel bit patterns alone. The arguments are
/// reinterpreted as float channels with `bytemuck::cast`, an exact
/// bit-for-bit conversion.
#[verifier::external_body]
pub fn perceptual_to_rgb(p: PerceptualBits) -> (c: RgbQ)
    ensures
        (c.r, c.g, c.b) == srgb_of_oklab_bits(p.l, p.a, p.b),
{
    let o = oklab::Oklab {
        l: bytemuck::cast(p.l),
        a: bytemuck::cast(p.a),
        b: bytemuck::cast(p.b),
    };
    let s = oklab::oklab_to_srgb(o);
    RgbQ { r: s.r, g: s.g, b: s.b }
}

} // verus!
