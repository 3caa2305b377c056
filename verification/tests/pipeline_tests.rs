use gamut_remap::cache::RoundTripCache;
use gamut_remap::color::PerceptualBits;
use gamut_remap::color::RgbQ;
use gamut_remap::convert::rgb_to_perceptual;
use gamut_remap::pipeline::ImageQ;
use gamut_remap::pipeline::RemapError;
use gamut_remap::pipeline::image_to_perceptual;
use gamut_remap::pipeline::image_to_perceptual_direct;
use gamut_remap::pipeline::perceptual_to_image;
use gamut_remap::pipeline::perceptual_to_image_direct;
use gamut_remap::pipeline::process_identity;

fn sample_pixels() -> Vec<RgbQ> {
    vec![
        RgbQ { r: 10, g: 20, b: 30 },
        RgbQ { r: 200, g: 100, b: 50 },
        RgbQ { r: 0, g: 255, b: 128 },
        RgbQ { r: 77, g: 77, b: 77 },
    ]
}

#[test]
fn test_from_pixels_checks_dimensions() {
    let img = ImageQ::from_pixels(2, 2, sample_pixels());
    assert!(img.is_some());
    assert!(ImageQ::from_pixels(3, 2, sample_pixels()).is_none());
    assert!(ImageQ::from_pixels(0, 0, Vec::new()).is_some());
}

#[test]
fn test_identity_processing_returns_the_image() {
    let mut cache = RoundTripCache::new();
    for c in sample_pixels() {
        cache.record(c);
    }
    assert!(cache.is_consistent());
    let img = ImageQ::from_pixels(2, 2, sample_pixels()).unwrap();
    let out = process_identity(&cache, &img).unwrap();
    assert_eq!(out.width, 2);
    assert_eq!(out.height, 2);
    assert_eq!(out.pixels, sample_pixels());
}

#[test]
fn test_forward_stage_reports_missing_pixel_coordinates() {
    let mut cache = RoundTripCache::new();
    let pixels = sample_pixels();
    for c in &pixels[..3] {
        cache.record(*c);
    }
    let img = ImageQ::from_pixels(2, 2, pixels).unwrap();
    let err = image_to_perceptual(&cache, &img).unwrap_err();
    assert_eq!(err, RemapError::DomainExhaustion { x: 1, y: 1 });
}

#[test]
fn test_forward_stage_yields_perceptual_values_in_order() {
    let mut cache = RoundTripCache::new();
    let pixels = sample_pixels();
    for c in &pixels {
        cache.record(*c);
    }
    let img = ImageQ::from_pixels(4, 1, pixels.clone()).unwrap();
    let vals = image_to_perceptual(&cache, &img).unwrap();
    assert_eq!(vals.len(), 4);
    for (v, c) in vals.iter().zip(pixels.iter()) {
        assert_eq!(*v, rgb_to_perceptual(*c));
    }
}

#[test]
fn test_reverse_stage_reports_exhausted_domain_coordinates() {
    let mut cache = RoundTripCache::new();
    let pixels = sample_pixels();
    for c in &pixels {
        cache.record(*c);
    }
    let mut vals: Vec<PerceptualBits> = pixels.iter().map(|c| rgb_to_perceptual(*c)).collect();
    // a manipulated value the enumeration never produced
    vals[2] = PerceptualBits { l: 7, a: 8, b: 9 };
    let err = perceptual_to_image(&cache, &vals, 2, 2).unwrap_err();
    assert_eq!(err, RemapError::DomainExhaustion { x: 0, y: 1 });
}

#[test]
fn test_direct_stages_use_the_raw_conversions() {
    let pixels = sample_pixels();
    let img = ImageQ::from_pixels(2, 2, pixels.clone()).unwrap();
    let vals = image_to_perceptual_direct(&img);
    for (v, c) in vals.iter().zip(pixels.iter()) {
        let o = oklab::srgb_to_oklab(oklab::Rgb { r: c.r, g: c.g, b: c.b });
        assert_eq!(v.l, o.l.to_bits());
        assert_eq!(v.a, o.a.to_bits());
        assert_eq!(v.b, o.b.to_bits());
    }
    let back = perceptual_to_image_direct(&vals, 2, 2);
    assert_eq!(back.width, 2);
    assert_eq!(back.height, 2);
    assert_eq!(back.pixels, pixels);
}

#[test]
fn test_reverse_stage_rebuilds_the_image() {
    let mut cache = RoundTripCache::new();
    let pixels = sample_pixels();
    for c in &pixels {
        cache.record(*c);
    }
    let vals: Vec<PerceptualBits> = pixels.iter().map(|c| rgb_to_perceptual(*c)).collect();
    let img = perceptual_to_image(&cache, &vals, 2, 2).unwrap();
    assert_eq!(img.pixels, pixels);
}
