use amd_bf16_tools::{Bf16, Bf16MatMul};

fn to_bf16(vals: &[f32]) -> Vec<Bf16> {
    let bits: Vec<u32> = vals.iter().map(|x| x.to_bits()).collect();
    Bf16MatMul::f32_to_bf16(&bits)
}

fn to_f32(vals: &[Bf16]) -> Vec<f32> {
    Bf16MatMul::bf16_to_f32(vals).into_iter().map(f32::from_bits).collect()
}

#[test]
fn test_conversion_roundtrip() {
    let vals = vec![1.0f32, 2.5, -3.14, 100.0];
    let bf = to_bf16(&vals);
    let back = to_f32(&bf);
    for (orig, round) in vals.iter().zip(back.iter()) {
        assert!((orig - round).abs() < 0.1 * orig.abs().max(1.0));
    }
}

#[test]
fn narrowing_matches_half_on_sampled_patterns() {
    let mut x: u64 = 0;
    while x <= u32::MAX as u64 {
        let bits = x as u32;
        for probe in [bits, bits ^ 0x8000, bits | 0xffff, bits & 0xffff_0000, bits | 0x8000] {
            let ours = Bf16::from_f32_bits(probe).bits;
            let theirs = half::bf16::from_f32(f32::from_bits(probe)).to_bits();
            assert_eq!(ours, theirs, "pattern {:#010x}", probe);
        }
        x += 0x1_0f31;
    }
}

#[test]
fn widening_matches_half_on_every_pattern() {
    for b in 0..=u16::MAX {
        let ours = Bf16 { bits: b }.to_f32_bits();
        let theirs = f32::from(half::bf16::from_bits(b)).to_bits();
        assert_eq!(ours, theirs, "pattern {:#06x}", b);
    }
}

#[test]
fn narrowing_rounds_to_nearest_even() {
    // 1.0 + 2^-8 lies exactly between 1.0 and the next bf16 (1.0078125): ties go to even.
    assert_eq!(Bf16::from_f32_bits(0x3f80_8000).bits, 0x3f80);
    // 1.0078125 + 2^-8 lies between two bf16s with the upper one even.
    assert_eq!(Bf16::from_f32_bits(0x3f81_8000).bits, 0x3f82);
    // Just above the tie rounds up, just below rounds down.
    assert_eq!(Bf16::from_f32_bits(0x3f80_8001).bits, 0x3f81);
    assert_eq!(Bf16::from_f32_bits(0x3f80_7fff).bits, 0x3f80);
    // Negative values round their magnitude the same way.
    assert_eq!(Bf16::from_f32_bits(0xbf80_8001).bits, 0xbf81);
    // f32::MAX overflows to infinity, infinity stays infinity.
    assert_eq!(Bf16::from_f32_bits(f32::MAX.to_bits()).bits, 0x7f80);
    assert_eq!(Bf16::from_f32_bits(f32::INFINITY.to_bits()).bits, 0x7f80);
    assert_eq!(Bf16::from_f32_bits(f32::NEG_INFINITY.to_bits()).bits, 0xff80);
    // The smallest subnormal underflows to zero and keeps its sign.
    assert_eq!(Bf16::from_f32_bits(0x0000_0001).bits, 0x0000);
    assert_eq!(Bf16::from_f32_bits(0x8000_0001).bits, 0x8000);
}

#[test]
fn nan_stays_nan_and_becomes_quiet() {
    // A signalling NaN keeps its sign and payload top bits and gains the quiet bit.
    assert_eq!(Bf16::from_f32_bits(0x7f80_0001).bits, 0x7fc0);
    assert_eq!(Bf16::from_f32_bits(0xff81_0000).bits, 0xffc1);
    assert_eq!(Bf16 { bits: 0x7f81 }.to_f32_bits(), 0x7fc1_0000);
    assert!(f32::from_bits(Bf16 { bits: 0x7f81 }.to_f32_bits()).is_nan());
}

#[test]
fn law_widen_then_narrow_gives_back_every_number() {
    for b in 0..=u16::MAX {
        let wide = Bf16 { bits: b }.to_f32_bits();
        let back = Bf16::from_f32_bits(wide).bits;
        let is_nan = b & 0x7fff > 0x7f80;
        if is_nan {
            assert_eq!(back, b | 0x0040);
        } else {
            assert_eq!(back, b);
        }
    }
}

#[test]
fn law_narrowing_is_stable() {
    for x in [0x3f80_8000u32, 0x4049_0fdb, 0xc048_f5c3, 0x7f7f_ffff, 0x7f80_0001, 0x0000_8001] {
        let once = Bf16::from_f32_bits(x);
        let twice = Bf16::from_f32_bits(once.to_f32_bits());
        assert_eq!(once, twice);
    }
}

#[test]
fn law_narrowing_is_nearest_and_monotonic() {
    let samples = [-1.0e30f32, -3.14, -1.0, -0.0, 0.0, 1.0e-40, 0.5, 1.0, 2.5, 3.14159, 65504.0, 3.0e38];
    for &v in samples.iter() {
        let r = f32::from_bits(Bf16::from_f32_bits(v.to_bits()).to_f32_bits());
        // Within half a step of 8 significant bits.
        assert!((r - v).abs() <= v.abs() / 256.0 + f32::MIN_POSITIVE);
        assert_eq!(r.is_sign_negative(), v.is_sign_negative());
    }
    for w in samples.windows(2) {
        let a = f32::from_bits(Bf16::from_f32_bits(w[0].to_bits()).to_f32_bits());
        let b = f32::from_bits(Bf16::from_f32_bits(w[1].to_bits()).to_f32_bits());
        assert!(a <= b);
    }
}

#[test]
fn slices_convert_entry_by_entry() {
    let vals = [1.0f32, -2.0, 0.333_333_34];
    let bf = to_bf16(&vals);
    assert_eq!(bf, vec![Bf16 { bits: 0x3f80 }, Bf16 { bits: 0xc000 }, Bf16 { bits: 0x3eab }]);
    assert_eq!(to_f32(&bf), vec![1.0f32, -2.0, f32::from_bits(0x3eab_0000)]);
    assert!(to_bf16(&[]).is_empty());
}

#[test]
fn max_value_ignores_nan_and_starts_from_negative_infinity() {
    let data = to_bf16(&[1.0, 3.0, f32::NAN, 2.0, -7.0]);
    assert_eq!(f32::from_bits(Bf16::max_value(&data).to_f32_bits()), 3.0);
    let data = to_bf16(&[-5.0, -2.0, -9.0]);
    assert_eq!(f32::from_bits(Bf16::max_value(&data).to_f32_bits()), -2.0);
    assert_eq!(Bf16::max_value(&[]).bits, 0xff80);
    let nans = to_bf16(&[f32::NAN, f32::NAN]);
    assert_eq!(Bf16::max_value(&nans).bits, 0xff80);
    let data = to_bf16(&[f32::INFINITY, 1.0]);
    assert_eq!(Bf16::max_value(&data).bits, 0x7f80);
}
