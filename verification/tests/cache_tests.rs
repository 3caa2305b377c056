use gamut_remap::cache::RoundTripCache;
use gamut_remap::color::PerceptualBits;
use gamut_remap::color::RgbQ;
use gamut_remap::convert::rgb_to_perceptual;

#[test]
fn test_record_then_forward_lookup() {
    let mut cache = RoundTripCache::new();
    let c = RgbQ { r: 10, g: 200, b: 30 };
    cache.record(c);
    let p = cache.rgb_to_perceptual_cached(c).unwrap();
    assert_eq!(p, rgb_to_perceptual(c));
    assert!(cache.rgb_to_perceptual_cached(RgbQ { r: 11, g: 200, b: 30 }).is_none());
}

#[test]
fn test_record_then_reverse_lookup() {
    let mut cache = RoundTripCache::new();
    let c = RgbQ { r: 99, g: 1, b: 255 };
    cache.record(c);
    let p = rgb_to_perceptual(c);
    assert_eq!(cache.perceptual_to_rgb_cached(p), Some(c));
    let bogus = PerceptualBits { l: 1, a: 2, b: 3 };
    assert_eq!(cache.perceptual_to_rgb_cached(bogus), None);
}

#[test]
fn test_round_trip_identity_for_recorded_colors() {
    let mut cache = RoundTripCache::new();
    let colors = [
        RgbQ { r: 0, g: 0, b: 0 },
        RgbQ { r: 255, g: 255, b: 255 },
        RgbQ { r: 1, g: 128, b: 254 },
        RgbQ { r: 200, g: 17, b: 3 },
    ];
    for c in colors {
        cache.record(c);
    }
    assert!(cache.is_consistent());
    for c in colors {
        assert_eq!(cache.round_trip(c), Some(c));
    }
}

#[test]
fn test_round_trip_misses_unrecorded_color() {
    let mut cache = RoundTripCache::new();
    cache.record(RgbQ { r: 5, g: 5, b: 5 });
    assert_eq!(cache.round_trip(RgbQ { r: 6, g: 6, b: 6 }), None);
}

#[test]
fn test_recording_twice_stays_consistent() {
    let mut cache = RoundTripCache::new();
    let c = RgbQ { r: 44, g: 44, b: 44 };
    cache.record(c);
    cache.record(c);
    assert!(cache.is_consistent());
    assert_eq!(cache.round_trip(c), Some(c));
}

#[test]
fn test_re_recording_a_range_stays_consistent() {
    // every perceptual key met the second time is already bound to the
    // very color being recorded, so no collision is flagged
    let mut cache = RoundTripCache::new();
    cache.record_cube_range(0, 500);
    cache.record_cube_range(0, 500);
    assert!(cache.is_consistent());
    let c = gamut_remap::color::RgbQ::from_u32(321);
    assert_eq!(cache.round_trip(c), Some(c));
}

#[test]
fn test_record_cube_range_covers_the_range() {
    let mut cache = RoundTripCache::new();
    cache.record_cube_range(0, 2000);
    let c = RgbQ::from_u32(1234);
    assert!(cache.is_consistent());
    assert_eq!(cache.round_trip(c), Some(c));
    assert!(cache.rgb_to_perceptual_cached(RgbQ::from_u32(2000)).is_none());
}
