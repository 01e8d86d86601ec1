use audiophore::binary32::{Double, Single};
use audiophore::rounding::round_significand;

fn single(v: f32) -> Single {
    Single { bits: v.to_bits() }
}

/// Patterns that are likely to hit an edge.
fn edges() -> Vec<u32> {
    let magnitudes: [u32; 22] = [
        0,
        1,
        2,
        3,
        0x007f_fffe,
        0x007f_ffff,
        0x0080_0000,
        0x0080_0001,
        0x0100_0000,
        0x1f80_0000,
        0x2000_0001,
        0x3e99_999a,
        0x3f00_0000,
        0x3f7f_ffff,
        0x3f80_0000,
        0x3f80_0001,
        0x4b7f_ffff,
        0x4b80_0000,
        0x7f7f_ffff,
        0x7f80_0000,
        0x7f80_0001,
        0x7fc0_0000,
    ];
    let mut all: Vec<u32> = Vec::new();
    for m in magnitudes {
        all.push(m);
        all.push(m + 0x8000_0000);
    }
    all
}

/// A run of patterns without order.
fn scattered(count: usize, mut state: u64) -> Vec<u32> {
    let mut all: Vec<u32> = Vec::new();
    for _ in 0..count {
        state = state
            .wrapping_mul(6_364_136_223_846_793_005)
            .wrapping_add(1_442_695_040_888_963_407);
        all.push((state >> 32) as u32);
    }
    all
}

fn same(ours: Single, native: f32) -> bool {
    if native.is_nan() {
        ours.is_nan()
    } else {
        ours.bits == native.to_bits()
    }
}

fn check_pair(a: u32, b: u32) {
    let (x, y) = (f32::from_bits(a), f32::from_bits(b));
    let (s, t) = (Single { bits: a }, Single { bits: b });
    assert!(same(s.times(t), x * y), "{a:08x} * {b:08x}");
    assert!(same(s.plus(t), x + y), "{a:08x} + {b:08x}");
    assert_eq!(s.is_below(t), x < y, "{a:08x} < {b:08x}");
    assert_eq!(s == t, x == y, "{a:08x} == {b:08x}");
}

#[test]
fn arithmetic_agrees_with_the_hardware_on_edges() {
    for a in edges() {
        for b in edges() {
            check_pair(a, b);
        }
    }
}

#[test]
fn arithmetic_agrees_with_the_hardware_on_scattered_patterns() {
    let left = scattered(200_000, 1);
    let right = scattered(200_000, 2);
    for (a, b) in left.iter().zip(right.iter()) {
        check_pair(*a, *b);
        // Close exponents, so that sums cancel and round.
        check_pair(*a, (*a & 0xff80_0000) | (*b & 0x007f_ffff));
        check_pair(*a, (*a ^ 0x8000_0000).wrapping_add(*b % 0x0400_0000));
    }
}

#[test]
fn integers_round_as_the_hardware_rounds_them() {
    for v in [0, 1, -1, 7, 16_777_215, 16_777_216, 16_777_217, 16_777_219, i32::MAX, i32::MIN] {
        assert_eq!(Single::from_integer(v).bits, (v as f32).to_bits());
    }
    for bits in scattered(200_000, 3) {
        let v = bits as i32;
        assert_eq!(Single::from_integer(v).bits, (v as f32).to_bits());
    }
}

#[test]
fn doubles_are_narrowed_as_the_hardware_narrows_them() {
    let edges: [f64; 14] = [
        0.0,
        -0.0,
        3.5,
        0.1,
        1.0e-45,
        1.0e-46,
        7.0e-46,
        -1.0e-40,
        3.402_823_5e38,
        3.402_823_6e38,
        1.0e39,
        f64::MAX,
        f64::INFINITY,
        f64::NEG_INFINITY,
    ];
    for v in edges {
        assert!(same(Double { bits: v.to_bits() }.narrow(), v as f32), "{v}");
    }
    assert!(Double { bits: f64::NAN.to_bits() }.narrow().is_nan());
    let high = scattered(200_000, 4);
    let low = scattered(200_000, 5);
    for (a, b) in high.iter().zip(low.iter()) {
        let bits = (u64::from(*a) << 32) | u64::from(*b);
        assert!(same(Double { bits }.narrow(), f64::from_bits(bits) as f32), "{bits:016x}");
        // Exponents around those of single precision.
        let near = (bits & 0x800f_ffff_ffff_ffff) | ((0x360 + (u64::from(*a) % 0x130)) << 52);
        assert!(same(Double { bits: near }.narrow(), f64::from_bits(near) as f32), "{near:016x}");
    }
}

#[test]
fn clamping_keeps_what_is_not_a_number_and_negative_zero() {
    let (zero, one) = (single(0.0), single(1.0));
    assert!(single(f32::NAN).clamp_to(zero, one).is_nan());
    assert_eq!(single(-0.0).clamp_to(zero, one).bits, (-0.0f32).to_bits());
    assert_eq!(single(-3.0).clamp_to(zero, one).bits, 0);
    assert_eq!(single(7.5).clamp_to(zero, one).bits, 0x3f80_0000);
    assert_eq!(single(0.25).clamp_to(zero, one).bits, 0x3e80_0000);
}

#[test]
fn zeros_are_equal_and_what_is_not_a_number_equals_nothing() {
    assert!(single(0.0) == single(-0.0));
    assert!(single(f32::NAN) != single(f32::NAN));
    assert!(single(1.0) != single(-1.0));
}

#[test]
fn multiplying_by_one_and_zero() {
    assert_eq!(single(0.3).times(single(1.0)).bits, 0x3e99_999a);
    assert_eq!(single(0.3).times(single(0.0)).bits, 0);
    assert!(single(f32::INFINITY).times(single(0.0)).is_nan());
    assert!(single(f32::INFINITY).plus(single(f32::NEG_INFINITY)).is_nan());
}

#[test]
fn a_significand_rounds_half_to_even() {
    // 2^24 + 1 lies halfway between two numbers and goes to the even one.
    assert_eq!(round_significand(16_777_217, 149), 16_777_216f32.to_bits());
    assert_eq!(round_significand(16_777_219, 149), 16_777_220f32.to_bits());
    assert_eq!(round_significand(1, 149 + 128), 0x7f80_0000);
    assert_eq!(round_significand(1, -1), 0);
    assert_eq!(round_significand(3, -1), 2);
}

#[test]
fn times_are_accepted_from_zero_on() {
    let accepted = |v: f64| Double { bits: v.to_bits() }.is_finite_and_at_least_zero();
    assert!(accepted(0.0));
    assert!(accepted(-0.0));
    assert!(accepted(1.25));
    assert!(!accepted(-1.0));
    assert!(!accepted(f64::NAN));
    assert!(!accepted(f64::INFINITY));
    assert!(!accepted(f64::NEG_INFINITY));
}
