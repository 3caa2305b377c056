//! Color value types: quantized 8-bit RGB, exact-rational continuous RGB,
//! and the bit-pattern form of a perceptual (Oklab) color.

use vstd::prelude::*;

verus! {

/// A quantized color: three 8-bit sRGB channels.
///
/// This is the domain of the full-gamut enumeration and the key type of the
/// round-trip cache. Equality and ordering are exact, field by field.
#[derive(Copy, Clone, Debug, Default, PartialEq, Eq, PartialOrd, Ord, Hash, Structural)]
pub struct RgbQ {
    pub r: u8,
    pub g: u8,
    pub b: u8,
}

impl RgbQ {
    /// The packed 24-bit form of a quantized color: `0xRRGGBB`, that is
    /// `r * 0x1_0000 + g * 0x100 + b`.
    pub open spec fn spec_as_u32(self) -> u32 {
        (self.r * 0x1_0000 + self.g * 0x100 + self.b) as u32
    }

    /// The color encoded by the low 24 bits of `value`.
    pub open spec fn spec_from_u32(value: u32) -> RgbQ {
        RgbQ {
            r: ((value / 0x1_0000) % 0x100) as u8,
            g: ((value / 0x100) % 0x100) as u8,
            b: (value % 0x100) as u8,
        }
    }

    /// Decodes the low 24 bits of `value` as `0xRRGGBB`.
    pub fn from_u32(value: u32) -> (c: Self)
        ensures
            c == RgbQ::spec_from_u32(value),
    {
        let r = ((value & (0xff << 16)) >> 16) as u8;
        let g = ((value & (0xff << 8)) >> 8) as u8;
        let b = (value & 0xff) as u8;
        proof {
            assert(((value & (0xffu32 << 16)) >> 16) as u8 == ((value / 0x1_0000) % 0x100) as u8
                && ((value & (0xffu32 << 8)) >> 8) as u8 == ((value / 0x100) % 0x100) as u8 && (
            value & 0xff) as u8 == (value % 0x100) as u8) by (bit_vector);
        }
        Self { r, g, b }
    }

    /// The packed form of this color, both below `0x100_0000` and equal to
    /// the arithmetic packing.
    proof fn lemma_pack_value(self)
        ensures
            self.spec_as_u32() == ((self.r as u32) << 16) | ((self.g as u32) << 8) | (
            self.b as u32),
            self.spec_as_u32() < 0x100_0000,
    {
        lemma_rgbq_pack_forms(self.r, self.g, self.b);
    }

    /// Packs the color as `0xRRGGBB`; always below `0x100_0000`.
    pub fn as_u32(&self) -> (v: u32)
        ensures
            v == self.spec_as_u32(),
            v < 0x100_0000,
    {
        proof {
            self.lemma_pack_value();
        }
        ((self.r as u32) << 16) | ((self.g as u32) << 8) | (self.b as u32)
    }
}

/// The bitwise and the arithmetic forms of packing agree.
proof fn lemma_rgbq_pack_forms(r: u8, g: u8, b: u8)
    by (bit_vector)
    ensures
        ((r as u32) << 16) | ((g as u32) << 8) | (b as u32) == r * 0x1_0000 + g * 0x100 + b,
        ((r as u32) << 16) | ((g as u32) << 8) | (b as u32) < 0x100_0000,
{
}

/// Packing is injective: decoding the packed form of a color gives the
/// color back, for every color.
pub proof fn lemma_rgbq_pack_round_trip(c: RgbQ)
    ensures
        RgbQ::spec_from_u32(c.spec_as_u32()) == c,
        c.spec_as_u32() < 0x100_0000,
{
    let r = c.r;
    let g = c.g;
    let b = c.b;
    assert({
        let v = (r as u32) * 0x1_0000 + (g as u32) * 0x100 + (b as u32);
        ((v / 0x1_0000) % 0x100) as u8 == r && ((v / 0x100) % 0x100) as u8 == g && (v
            % 0x100) as u8 == b && v < 0x100_0000
    }) by (bit_vector);
}

/// Every 24-bit value decodes to the color that packs back to it.
pub proof fn lemma_rgbq_unpack_round_trip(v: u32)
    requires
        v < 0x100_0000,
    ensures
        RgbQ::spec_from_u32(v).spec_as_u32() == v,
{
    assert(((((v / 0x1_0000) % 0x100) as u8) as u32) * 0x1_0000 + ((((v / 0x100)
        % 0x100) as u8) as u32) * 0x100 + (((v % 0x100) as u8) as u32) == v) by (bit_vector)
        requires
            v < 0x100_0000,
    ;
}

/// An exact rational number `num / den`. Used for continuous channel values
/// and for animation sweep percentages, where exactness matters.
#[derive(Copy, Clone, Debug, PartialEq, Eq, Structural)]
pub struct Ratio {
    pub num: u64,
    pub den: u64,
}

impl Ratio {
    /// A ratio is well formed when its denominator is positive.
    pub open spec fn wf(self) -> bool {
        self.den > 0
    }

    /// Two ratios denote the same rational number (cross multiplication).
    pub open spec fn same_value(self, other: Ratio) -> bool {
        self.num * other.den == other.num * self.den
    }

    /// A ratio denotes a value in the closed unit interval.
    pub open spec fn in_unit(self) -> bool {
        self.num <= self.den
    }
}

/// A continuous color: three channels, each an exact rational in `[0, 1]`.
#[derive(Copy, Clone, Debug, PartialEq, Eq, Structural)]
pub struct RgbC {
    pub r: Ratio,
    pub g: Ratio,
    pub b: Ratio,
}

impl RgbC {
    /// All three channels are well formed and within the unit interval.
    pub open spec fn wf(self) -> bool {
        &&& self.r.wf() && self.r.in_unit()
        &&& self.g.wf() && self.g.in_unit()
        &&& self.b.wf() && self.b.in_unit()
    }

    /// Widens a quantized color: each channel `v` becomes the exact value
    /// `v / 255`, so 0 maps to 0 and 255 maps to 1.
    #[allow(non_snake_case)]
    pub fn from_RgbQ(value: RgbQ) -> (c: Self)
        ensures
            c.r == (Ratio { num: value.r as u64, den: 255 }),
            c.g == (Ratio { num: value.g as u64, den: 255 }),
            c.b == (Ratio { num: value.b as u64, den: 255 }),
            c.wf(),
    {
        let r = Ratio { num: value.r as u64, den: 255 };
        let g = Ratio { num: value.g as u64, den: 255 };
        let b = Ratio { num: value.b as u64, den: 255 };
        Self { r, g, b }
    }
}

/// A perceptual color held as the exact bit patterns of its three
/// single-precision channels: `l` (lightness), `a` and `b` (chroma).
///
/// The pipeline keys cache lookups on these bit patterns, never on rounded
/// values, so two perceptual colors compare equal only when bit-identical.
#[derive(Copy, Clone, Debug, PartialEq, Eq, Structural)]
pub struct PerceptualBits {
    pub l: u32,
    pub a: u32,
    pub b: u32,
}

impl PerceptualBits {
    /// The packed 96-bit cache key: `l`, then `a`, then `b`.
    pub open spec fn spec_pack(self) -> u128 {
        ((self.l as u128) << 64) | ((self.a as u128) << 32) | (self.b as u128)
    }

    /// The perceptual color encoded by the low 96 bits of `key`.
    pub open spec fn spec_unpack(key: u128) -> PerceptualBits {
        PerceptualBits { l: ((key >> 64) & 0xffff_ffff) as u32, a: ((key >> 32)
            & 0xffff_ffff) as u32, b: (key & 0xffff_ffff) as u32 }
    }

    /// Packs the three channel bit patterns into one exact cache key.
    pub fn pack(&self) -> (key: u128)
        ensures
            key == self.spec_pack(),
    {
        ((self.l as u128) << 64) | ((self.a as u128) << 32) | (self.b as u128)
    }
}

/// Packing perceptual bit patterns is injective: unpacking the packed key
/// gives the channels back, for every perceptual color.
pub proof fn lemma_perceptual_pack_round_trip(p: PerceptualBits)
    ensures
        PerceptualBits::spec_unpack(p.spec_pack()) == p,
{
    let l = p.l;
    let a = p.a;
    let b = p.b;
    assert({
        let key = ((l as u128) << 64) | ((a as u128) << 32) | (b as u128);
        ((key >> 64) & 0xffff_ffff) as u32 == l && ((key >> 32) & 0xffff_ffff) as u32 == a && (key
            & 0xffff_ffff) as u32 == b
    }) by (bit_vector);
}

} // verus!
