use gamut_remap::color::PerceptualBits;
use gamut_remap::color::RgbQ;
use gamut_remap::convert::perceptual_to_rgb;
use gamut_remap::convert::rgb_to_perceptual;

#[test]
fn test_forward_conversion_matches_oklab_crate() {
    for c in [
        RgbQ { r: 255, g: 0, b: 0 },
        RgbQ { r: 0, g: 255, b: 0 },
        RgbQ { r: 0, g: 0, b: 255 },
        RgbQ { r: 128, g: 128, b: 128 },
    ] {
        let p = rgb_to_perceptual(c);
        let o = oklab::srgb_to_oklab(oklab::Rgb { r: c.r, g: c.g, b: c.b });
        assert_eq!(p.l, o.l.to_bits());
        assert_eq!(p.a, o.a.to_bits());
        assert_eq!(p.b, o.b.to_bits());
    }
}

#[test]
fn test_forward_conversion_is_not_trivial() {
    // white has full lightness and near-zero chroma; the bit patterns are
    // nothing like the 8-bit inputs
    let p = rgb_to_perceptual(RgbQ { r: 255, g: 255, b: 255 });
    let l = f32::from_bits(p.l);
    assert!((l - 1.0).abs() < 1e-3);
}

#[test]
fn test_reverse_conversion_matches_oklab_crate() {
    let o = oklab::srgb_to_oklab(oklab::Rgb { r: 200, g: 40, b: 90 });
    let p = PerceptualBits { l: o.l.to_bits(), a: o.a.to_bits(), b: o.b.to_bits() };
    let c = perceptual_to_rgb(p);
    let s = oklab::oklab_to_srgb(o);
    assert_eq!(c, RgbQ { r: s.r, g: s.g, b: s.b });
}

#[test]
fn test_neutral_gray_has_near_zero_chroma() {
    let p = rgb_to_perceptual(RgbQ { r: 128, g: 128, b: 128 });
    let a = f32::from_bits(p.a);
    let b = f32::from_bits(p.b);
    assert!(a.abs() < 1e-3);
    assert!(b.abs() < 1e-3);
}
