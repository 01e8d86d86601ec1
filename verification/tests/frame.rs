use audiophore::binary32::{Double, Single};
use audiophore::frame::{clamp_unit, AudioFrameBuilder, Band, BPM_MAX, BPM_MIN};

fn s(v: f32) -> Single {
    Single { bits: v.to_bits() }
}

fn d(v: f64) -> Double {
    Double { bits: v.to_bits() }
}

fn f(v: Single) -> f32 {
    f32::from_bits(v.bits)
}

fn g(v: Double) -> f64 {
    f64::from_bits(v.bits)
}

#[test]
fn snapshot_preserves_all_continuous_fields_including_on_beat() {
    let mut b = AudioFrameBuilder::new();
    b.set_t(d(1.25));
    b.set_bpm(s(128.0));
    b.set_bpm_confidence(s(0.8));
    b.set_beat_phase(s(0.5));
    b.set_level(Band::Bass, s(0.7));
    b.set_hit(Band::Mid, s(0.4));
    b.set_presence(Band::High, s(0.2));
    b.set_intensity(s(0.6));
    b.set_fade(s(0.9));
    b.set_on_beat(s(0.9));

    let f1 = b.snapshot();
    assert!((g(f1.t) - 1.25).abs() < f64::EPSILON);
    assert!((f(f1.bpm) - 128.0).abs() < f32::EPSILON);
    assert!((f(f1.bpm_confidence) - 0.8).abs() < 1e-6);
    assert!((f(f1.beat_phase) - 0.5).abs() < 1e-6);
    assert!((f(f1.on_beat) - 0.9).abs() < 1e-6);
    assert!((f(f1.levels.bass) - 0.7).abs() < 1e-6);
    assert!((f(f1.hits.mid) - 0.4).abs() < 1e-6);
    assert!((f(f1.presence.high) - 0.2).abs() < 1e-6);
    assert!((f(f1.intensity) - 0.6).abs() < 1e-6);
    assert!((f(f1.fade) - 0.9).abs() < 1e-6);

    let f2 = b.snapshot();
    assert!((f(f2.on_beat) - 0.9).abs() < 1e-6);
    assert!((f(f2.bpm) - 128.0).abs() < f32::EPSILON);
    assert!((f(f2.levels.bass) - 0.7).abs() < 1e-6);
}

#[test]
fn bpm_out_of_range_clamps_to_bounds() {
    let mut b = AudioFrameBuilder::new();
    b.set_bpm(s(500.0));
    assert!((f(b.snapshot().bpm) - f32::from_bits(BPM_MAX)).abs() < f32::EPSILON);
    b.set_bpm(s(-10.0));
    assert!((f(b.snapshot().bpm) - f32::from_bits(BPM_MIN)).abs() < f32::EPSILON);
}

#[test]
fn unit_fields_clamp_to_zero_one() {
    let mut b = AudioFrameBuilder::new();
    b.set_intensity(s(5.0));
    b.set_fade(s(-1.0));
    b.set_level(Band::Whole, s(2.0));
    b.set_bpm_confidence(s(2.0));
    let frame = b.snapshot();
    assert!((f(frame.intensity) - 1.0).abs() < f32::EPSILON);
    assert!((f(frame.fade) - 0.0).abs() < f32::EPSILON);
    assert!((f(frame.levels.whole) - 1.0).abs() < f32::EPSILON);
    assert!((f(frame.bpm_confidence) - 1.0).abs() < f32::EPSILON);
}

#[test]
fn nan_values_default_to_safe_bounds() {
    let mut b = AudioFrameBuilder::new();
    b.set_bpm(s(f32::NAN));
    b.set_intensity(s(f32::NAN));
    let frame = b.snapshot();
    assert!((f(frame.bpm) - f32::from_bits(BPM_MIN)).abs() < f32::EPSILON);
    assert!((f(frame.intensity) - 0.0).abs() < f32::EPSILON);
}

#[test]
fn negative_or_nonfinite_t_is_ignored() {
    let mut b = AudioFrameBuilder::new();
    b.set_t(d(2.0));
    b.set_t(d(-1.0));
    b.set_t(d(f64::NAN));
    let frame = b.snapshot();
    assert!((g(frame.t) - 2.0).abs() < f64::EPSILON);
}

#[test]
fn on_beat_envelope_clamps_and_persists() {
    let mut b = AudioFrameBuilder::new();
    b.set_on_beat(s(2.0));
    assert!((f(b.snapshot().on_beat) - 1.0).abs() < f32::EPSILON);
    assert!((f(b.snapshot().on_beat) - 1.0).abs() < f32::EPSILON);
    b.set_on_beat(s(-1.0));
    assert!(f(b.snapshot().on_beat).abs() < f32::EPSILON);
}

#[test]
fn bounds_of_the_tempo() {
    assert_eq!(f32::from_bits(BPM_MIN), 50.0);
    assert_eq!(f32::from_bits(BPM_MAX), 220.0);
}

#[test]
fn a_fresh_builder_has_the_documented_defaults() {
    let mut b = AudioFrameBuilder::default();
    let frame = b.snapshot();
    assert_eq!(g(frame.t), 0.0);
    assert_eq!(f(frame.bpm), 120.0);
    assert_eq!(f(frame.fade), 1.0);
    assert_eq!(f(frame.bpm_confidence), 0.0);
    assert_eq!(f(frame.beat_phase), 0.0);
    assert_eq!(f(frame.on_beat), 0.0);
    assert_eq!(f(frame.levels.whole), 0.0);
    assert_eq!(f(frame.hits.high), 0.0);
    assert_eq!(f(frame.presence.mid_high), 0.0);
    assert_eq!(f(frame.intensity), 0.0);
}

#[test]
fn every_band_has_a_place_of_its_own() {
    let bands = [Band::Whole, Band::Bass, Band::Mid, Band::MidHigh, Band::High];
    let mut b = AudioFrameBuilder::new();
    for (i, band) in bands.iter().enumerate() {
        b.set_level(*band, s(0.1 * (i + 1) as f32));
        b.set_hit(*band, s(0.15 * (i + 1) as f32));
        b.set_presence(*band, s(0.2 * (i + 1) as f32));
    }
    let frame = b.snapshot();
    for (base, v) in [(0.1, frame.levels), (0.15, frame.hits), (0.2, frame.presence)] {
        let base: f32 = base;
        assert_eq!(f(v.whole), base);
        assert_eq!(f(v.bass), base * 2.0);
        assert_eq!(f(v.mid), base * 3.0);
        assert_eq!(f(v.mid_high), base * 4.0);
        assert_eq!(f(v.high), base * 5.0);
    }
}

#[test]
fn a_copy_of_a_builder_goes_its_own_way() {
    let mut b = AudioFrameBuilder::new();
    b.set_bpm(s(90.0));
    let mut c = b.clone();
    c.set_bpm(s(100.0));
    assert_eq!(f(b.bpm()), 90.0);
    assert_eq!(f(c.bpm()), 100.0);
}

#[test]
fn values_are_moved_into_the_unit_range() {
    assert_eq!(clamp_unit(s(f32::NAN)).bits, 0);
    assert_eq!(clamp_unit(s(f32::INFINITY)).bits, 1.0f32.to_bits());
    assert_eq!(clamp_unit(s(f32::NEG_INFINITY)).bits, 0);
    assert_eq!(clamp_unit(s(0.5)).bits, 0.5f32.to_bits());
}
