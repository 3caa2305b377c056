use gamut_remap::order::max_bits;
use gamut_remap::order::min_bits;
use gamut_remap::order::same_value;
use gamut_remap::order::sort_key;

#[test]
fn test_sort_key_orders_like_float_values() {
    let values: [f32; 7] = [-100.5, -1.0, -0.25, 0.0, 0.25, 1.0, 100.5];
    for w in values.windows(2) {
        let lo = sort_key(w[0].to_bits());
        let hi = sort_key(w[1].to_bits());
        assert!(lo < hi, "{} should sort below {}", w[0], w[1]);
    }
}

#[test]
fn test_sort_key_orders_negative_zero_below_positive_zero() {
    assert!(sort_key((-0.0f32).to_bits()) < sort_key(0.0f32.to_bits()));
}

#[test]
fn test_min_max_bits_agree_with_float_comparison() {
    let a = (-1.5f32).to_bits();
    let b = 2.25f32.to_bits();
    assert_eq!(min_bits(a, b), a);
    assert_eq!(min_bits(b, a), a);
    assert_eq!(max_bits(a, b), b);
    assert_eq!(max_bits(b, a), b);
    let c = (-7.75f32).to_bits();
    assert_eq!(min_bits(a, c), c);
    assert_eq!(max_bits(a, c), a);
}

#[test]
fn test_same_value_on_the_two_zeros() {
    assert!(same_value((-0.0f32).to_bits(), 0.0f32.to_bits()));
    assert!(same_value(0.0f32.to_bits(), 0.0f32.to_bits()));
    assert!(!same_value(1.0f32.to_bits(), (-1.0f32).to_bits()));
    assert!(!same_value(0.0f32.to_bits(), f32::MIN_POSITIVE.to_bits()));
}
