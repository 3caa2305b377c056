use gamut_remap::color::PerceptualBits;
use gamut_remap::color::Ratio;
use gamut_remap::color::RgbC;
use gamut_remap::color::RgbQ;

#[test]
fn test_from_u32_decodes_channels() {
    let c = RgbQ::from_u32(0x010203);
    assert_eq!(c, RgbQ { r: 1, g: 2, b: 3 });
    let c = RgbQ::from_u32(0x00ff_ffff);
    assert_eq!(c, RgbQ { r: 255, g: 255, b: 255 });
    let c = RgbQ::from_u32(0);
    assert_eq!(c, RgbQ { r: 0, g: 0, b: 0 });
    // only the low 24 bits are read
    let c = RgbQ::from_u32(0xff00_0102);
    assert_eq!(c, RgbQ { r: 0, g: 1, b: 2 });
}

#[test]
fn test_as_u32_packs_channels() {
    let c = RgbQ { r: 255, g: 128, b: 1 };
    assert_eq!(c.as_u32(), 0x00ff_8001);
    assert_eq!(RgbQ { r: 0, g: 0, b: 0 }.as_u32(), 0);
    assert_eq!(RgbQ { r: 255, g: 255, b: 255 }.as_u32(), 0x00ff_ffff);
}

#[test]
fn test_pack_round_trip() {
    for v in [0u32, 1, 0x100, 0x1_0000, 0x12_34_56, 0x00ff_ffff] {
        assert_eq!(RgbQ::from_u32(v).as_u32(), v);
    }
    for c in [
        RgbQ { r: 0, g: 0, b: 0 },
        RgbQ { r: 1, g: 2, b: 3 },
        RgbQ { r: 255, g: 0, b: 127 },
    ] {
        assert_eq!(RgbQ::from_u32(c.as_u32()), c);
    }
}

#[test]
fn test_continuous_from_quantized() {
    let c = RgbC::from_RgbQ(RgbQ { r: 0, g: 128, b: 255 });
    assert_eq!(c.r, Ratio { num: 0, den: 255 });
    assert_eq!(c.g, Ratio { num: 128, den: 255 });
    assert_eq!(c.b, Ratio { num: 255, den: 255 });
}

#[test]
fn test_perceptual_pack() {
    let p = PerceptualBits { l: 1, a: 2, b: 3 };
    assert_eq!(p.pack(), (1u128 << 64) | (2u128 << 32) | 3u128);
    let q = PerceptualBits { l: 0xffff_ffff, a: 0, b: 0xffff_ffff };
    assert_eq!(q.pack(), (0xffff_ffffu128 << 64) | 0xffff_ffffu128);
}
