use audiophore::binary32::{Double, Single};
use audiophore::frame::AudioFrameBuilder;
use audiophore::ingress::IngressError;
use audiophore::monitor::{dump_raw, fmt_args, format_frame, run_monitor, Number};
use audiophore::osc::{Arg, Packet, TimeTag};
use audiophore::text::{push_decimal, push_hex, push_signed_decimal, same_text, truncate_str};
use audiophore::types::{AudioFrame, BandValues};
use rosc::{encoder, OscBundle, OscMessage, OscPacket, OscTime, OscType};

fn s(v: f32) -> Single {
    Single { bits: v.to_bits() }
}

fn write_number(number: Number, decimals: Option<usize>) -> String {
    match (number, decimals) {
        (Number::Single(v), None) => format!("{}", f32::from_bits(v.bits)),
        (Number::Single(v), Some(n)) => format!("{:.*}", n, f32::from_bits(v.bits)),
        (Number::Double(v), None) => format!("{}", f64::from_bits(v.bits)),
        (Number::Double(v), Some(n)) => format!("{:.*}", n, f64::from_bits(v.bits)),
    }
}

fn sample_frame() -> AudioFrame {
    AudioFrame {
        t: Double { bits: 12.345_678f64.to_bits() },
        bpm: s(128.5),
        bpm_confidence: s(0.9),
        beat_phase: s(0.5),
        on_beat: s(1.0),
        levels: BandValues {
            whole: s(0.7),
            bass: s(0.75),
            mid: s(0.4),
            mid_high: s(0.3),
            high: s(0.2),
        },
        hits: BandValues::default(),
        presence: BandValues::default(),
        intensity: s(0.42),
        fade: s(0.88),
    }
}

#[test]
fn format_frame_emits_nine_tab_separated_columns_in_documented_order() {
    let line = format_frame(&sample_frame(), &write_number);
    let cols: Vec<&str> = line.split('\t').collect();
    assert_eq!(cols.len(), 9, "expected 9 cols, got {cols:?}");
    assert!(cols[0].starts_with("12.345"), "t column: {}", cols[0]);
    assert_eq!(cols[1], "128.50", "bpm column");
    assert_eq!(cols[3], "1", "on_beat column should be 0|1");
    assert_eq!(cols[4], "0.7500", "levels.bass column");
    assert_eq!(cols[7], "0.4200", "intensity column");
    assert_eq!(cols[8], "0.8800", "fade column");
}

#[test]
fn format_frame_on_beat_false_renders_zero() {
    let mut frame = sample_frame();
    frame.on_beat = s(0.0);
    let cols: Vec<String> =
        format_frame(&frame, &write_number).split('\t').map(str::to_owned).collect();
    assert_eq!(cols[3], "0");
}

#[test]
fn format_frame_shows_every_column() {
    assert_eq!(
        format_frame(&sample_frame(), &write_number),
        "12.3457\t128.50\t0.5000\t1\t0.7500\t0.4000\t0.2000\t0.4200\t0.8800"
    );
}

#[test]
fn the_beat_column_turns_at_half_of_the_envelope() {
    for (envelope, shown) in [(0.49f32, "0"), (0.5, "1"), (0.51, "1"), (f32::NAN, "0")] {
        let mut frame = sample_frame();
        frame.on_beat = s(envelope);
        let line = format_frame(&frame, &write_number);
        assert_eq!(line.split('\t').nth(3), Some(shown));
    }
}

#[test]
fn fmt_args_renders_known_types() {
    let text = fmt_args(&[Arg::Float(s(0.42)), Arg::Int(1), Arg::Bool(true)], &write_number);
    assert_eq!(text, "f:0.42 i:1 b:true");
}

#[test]
fn fmt_args_truncates_long_strings() {
    let long = "x".repeat(64);
    let text = fmt_args(&[Arg::String(long)], &write_number);
    assert!(text.starts_with("s:"));
    assert!(
        text.chars().count() < 40,
        "expected truncation, got len {}",
        text.chars().count()
    );
}

#[test]
fn fmt_args_renders_every_type() {
    let args = [
        Arg::Double(Double { bits: 0.125f64.to_bits() }),
        Arg::Long(i64::MIN),
        Arg::Bool(false),
        Arg::Char('\u{e9}'),
        Arg::Color(0, 15, 160, 255),
        Arg::Blob(vec![0; 12]),
        Arg::Time(TimeTag { seconds: 1, fractional: 2 }),
        Arg::Midi(1, 2, 3, 4),
        Arg::Array(vec![Arg::Nil, Arg::Inf, Arg::Array(vec![])]),
        Arg::Nil,
        Arg::Inf,
        Arg::String("ok".into()),
        Arg::Int(i32::MIN),
    ];
    assert_eq!(
        fmt_args(&args, &write_number),
        "d:0.125 h:-9223372036854775808 b:false c:\u{e9} r:000fa0ff blob[12] t:<timetag> \
         m:<midi> a[3] N I s:ok i:-2147483648"
    );
    assert_eq!(fmt_args(&[], &write_number), "");
}

#[test]
fn truncate_str_preserves_short_strings() {
    assert_eq!(truncate_str("hi", 32), "hi");
}

#[test]
fn truncate_str_cuts_by_characters() {
    assert_eq!(truncate_str("h\u{e9}llo", 5), "h\u{e9}llo");
    assert_eq!(truncate_str("h\u{e9}llo", 2), "h\u{e9}\u{2026}");
    assert_eq!(truncate_str("abc", 0), "\u{2026}");
    assert_eq!(truncate_str("", 0), "");
}

#[test]
fn texts_are_the_same_or_not() {
    assert!(same_text("", ""));
    assert!(same_text("h\u{e9}", "h\u{e9}"));
    assert!(!same_text("abc", "abd"));
    assert!(!same_text("abc", "ab"));
}

#[test]
fn numbers_are_written_in_decimal_and_hexadecimal() {
    let mut out = String::new();
    push_decimal(&mut out, 0);
    out.push(' ');
    push_decimal(&mut out, u64::MAX);
    out.push(' ');
    push_signed_decimal(&mut out, -105);
    out.push(' ');
    push_hex(&mut out, 0x0a);
    assert_eq!(out, "0 18446744073709551615 -105 0a");
}

fn bundle() -> Vec<u8> {
    let m = |addr: &str, args: Vec<OscType>| {
        OscPacket::Message(OscMessage { addr: addr.to_string(), args })
    };
    let inner = OscPacket::Bundle(OscBundle {
        timetag: OscTime::from((0, 1)),
        content: vec![m("/b", vec![])],
    });
    encoder::encode(&OscPacket::Bundle(OscBundle {
        timetag: OscTime::from((0, 1)),
        content: vec![
            m("/audio/bpm/bpm", vec![OscType::Float(140.0)]),
            inner,
            m("/c", vec![OscType::Int(2), OscType::Nil]),
        ],
    }))
    .unwrap()
}

#[test]
fn raw_lines_show_every_message_in_order() {
    let lines = dump_raw(&bundle(), "127.0.0.1:9", &write_number).unwrap();
    assert_eq!(
        lines,
        vec![
            "raw\t127.0.0.1:9\t/audio/bpm/bpm\tf:140",
            "raw\t127.0.0.1:9\t/b\t",
            "raw\t127.0.0.1:9\t/c\ti:2 N",
        ]
    );
    assert!(dump_raw(b"nope", "127.0.0.1:9", &write_number).is_none());
}

#[test]
fn the_monitor_reports_frames_and_skips_garbage() {
    let mut builder = AudioFrameBuilder::new();
    let report = run_monitor(&bundle(), true, "peer", &mut builder, &write_number).unwrap();
    assert_eq!(report.raw.len(), 3);
    assert!(matches!(&report.packet, Packet::Bundle(_, items) if items.len() == 3));
    assert!(report.frame.starts_with("0.0000\t140.00\t"));
    let report = run_monitor(&bundle(), false, "peer", &mut builder, &write_number).unwrap();
    assert!(report.raw.is_empty());
    let skipped = run_monitor(b"nope", true, "peer", &mut builder, &write_number);
    assert!(matches!(skipped, Err(IngressError::Decode(_))));
    assert_eq!(f32::from_bits(builder.bpm().bits), 140.0);
}

#[test]
fn texts_of_argument_lists_are_joined_by_a_space() {
    let first = || vec![Arg::Int(1), Arg::Float(s(0.5))];
    let second = || vec![Arg::String("x".repeat(64)), Arg::Blob(vec![0; 12])];
    let mut both = first();
    both.extend(second());
    let a = fmt_args(&first(), &write_number);
    let b = fmt_args(&second(), &write_number);
    assert_eq!(fmt_args(&both, &write_number), format!("{a} {b}"));
    let alone = fmt_args(&[Arg::String("y".repeat(1000))], &write_number);
    assert_eq!(alone.chars().count(), 35);
    assert_eq!(fmt_args(&[Arg::Blob(vec![7; 300])], &write_number), "blob[300]");
}
