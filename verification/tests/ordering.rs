use amd_bf16_tools::{f32_less, F32_MAX_BITS};

#[test]
fn less_agrees_with_f32_on_special_values() {
    let vals = [
        f32::NEG_INFINITY, -f32::MAX, -2.5, -1.0, -f32::MIN_POSITIVE, -1.0e-45, -0.0, 0.0, 1.0e-45,
        f32::MIN_POSITIVE, 1.0, 2.5, f32::MAX, f32::INFINITY, f32::NAN, -f32::NAN,
        f32::from_bits(0x7f80_0001),
    ];
    for &a in vals.iter() {
        for &b in vals.iter() {
            assert_eq!(f32_less(a.to_bits(), b.to_bits()), a < b, "{:?} < {:?}", a, b);
        }
    }
}

#[test]
fn signed_zeros_are_equal() {
    assert!(!f32_less((-0.0f32).to_bits(), 0.0f32.to_bits()));
    assert!(!f32_less(0.0f32.to_bits(), (-0.0f32).to_bits()));
}

#[test]
fn max_bits_is_f32_max() {
    assert_eq!(F32_MAX_BITS, f32::MAX.to_bits());
}
