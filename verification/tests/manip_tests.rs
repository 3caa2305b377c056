use gamut_remap::color::Ratio;
use gamut_remap::manip::Manipulation;
use gamut_remap::manip::NormChroma;
use gamut_remap::manip::invert;
use gamut_remap::manip::rotate_pair;
use gamut_remap::manip::rotate_step;

#[test]
fn test_invert_concrete() {
    let c = NormChroma {
        a: Ratio { num: 1, den: 4 },
        b: Ratio { num: 3, den: 10 },
    };
    let r = invert(c);
    assert_eq!(r.a, Ratio { num: 3, den: 4 });
    assert_eq!(r.b, Ratio { num: 7, den: 10 });
}

#[test]
fn test_invert_is_an_involution() {
    let c = NormChroma {
        a: Ratio { num: 123, den: 1000 },
        b: Ratio { num: 0, den: 1000 },
    };
    assert_eq!(invert(invert(c)), c);
    let edge = NormChroma {
        a: Ratio { num: 1000, den: 1000 },
        b: Ratio { num: 500, den: 1000 },
    };
    assert_eq!(invert(invert(edge)), edge);
}

#[test]
fn test_invert_involution_in_single_precision() {
    // exact where 1 - a is computed without rounding (dyadic points)
    for a in [0.0f32, 0.125, 0.25, 0.5, 0.75, 0.875, 1.0] {
        let once = 1.0f32 - a;
        let twice = 1.0f32 - once;
        assert_eq!(twice.to_bits(), a.to_bits());
    }
    // elsewhere the rounding of 1 - a keeps it within one unit in the
    // last place of the original
    for a in [0.123_456_7f32, 0.9, 0.001] {
        let twice = 1.0f32 - (1.0f32 - a);
        assert!((twice - a).abs() <= f32::EPSILON);
    }
}

#[test]
fn test_manipulation_policies_are_distinct() {
    let rotate = Manipulation::ParameterizedRotate {
        percentage: Ratio { num: 1, den: 840 },
    };
    assert!(matches!(rotate, Manipulation::ParameterizedRotate { .. }));
    assert_ne!(rotate, Manipulation::Invert);
}

#[test]
fn test_rotate_step_concrete() {
    assert_eq!(rotate_step(3, 4, 5), 2);
    assert_eq!(rotate_step(0, 0, 7), 0);
    assert_eq!(rotate_step(6, 1, 7), 0);
}

#[test]
fn test_rotate_shifts_summing_to_a_turn_cancel() {
    // shifts 2/5 and 3/5 sum to one full turn
    let d = 5;
    for n in 0..d {
        let once = rotate_step(n, 2, d);
        let twice = rotate_step(once, 3, d);
        assert_eq!(twice, n);
    }
}

#[test]
fn test_rotate_pair_advances_a_hundredfold() {
    let d = 840 * 100;
    let (a, b) = rotate_pair(0, 0, d, 840);
    // b advances by 840/84000 = 1/100 of a turn; a by 100 times that: a
    // whole turn
    assert_eq!(a, 0);
    assert_eq!(b, 840);
}

#[test]
fn test_rotate_periodicity_in_single_precision() {
    let x = 0.3f32;
    let first = 0.25f32;
    let rest = 0.75f32;
    let once = (x + first) % 1.0;
    let twice = (once + rest) % 1.0;
    assert!((twice - x).abs() < 1e-5);
}

#[test]
fn test_normalize_denormalize_within_tolerance() {
    // the float leg of the pipeline: normalize into [0, 1] against bounds,
    // then denormalize; exact at the boundary values, within 1e-5 inside
    let min = -0.233_887_8f32;
    let max = 0.276_216_3f32;
    let normalize = |x: f32| (x - min) / (max - min);
    let denormalize = |x: f32| min + x * (max - min);
    assert_eq!(denormalize(normalize(min)).to_bits(), min.to_bits());
    for x in [min, -0.1f32, 0.0, 0.01, 0.19, max] {
        let back = denormalize(normalize(x));
        assert!((back - x).abs() <= 1e-5 * x.abs().max(1.0));
    }
}
