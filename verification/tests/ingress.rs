use audiophore::adapter::{Host, SacnAdapterBuilder, SendAction, SendEvent};
use audiophore::adapter_core::AdapterError;
use audiophore::binary32::{Double, Single};
use audiophore::bus::Bus;
use audiophore::engine::Engine;
use audiophore::frame::{clamp_unit, AudioFrameBuilder, Band, BPM_MAX};
use audiophore::ingress::{
    apply_message, dispatch_packet, first_float, ingest, route, IngressError, Target,
    RECV_BUFFER_BYTES,
};
use audiophore::mapping::map_m1;
use audiophore::osc::{Arg, Message, Packet, TimeTag};
use audiophore::packet::ACN_PACKET_IDENTIFIER;
use audiophore::types::{
    Period, ResolvedFrame, Rgb, Zone, ZoneId, ZoneKind, ZonePayload, ZoneSize,
};
use audiophore::zone_map::ZoneMap;
use rosc::{encoder, OscBundle, OscColor, OscMessage, OscMidiMessage, OscPacket, OscTime, OscType};

fn f(v: Single) -> f32 {
    f32::from_bits(v.bits)
}

fn message(addr: &str, args: Vec<OscType>) -> OscPacket {
    OscPacket::Message(OscMessage { addr: addr.to_string(), args })
}

fn encode_msg(addr: &str, args: Vec<OscType>) -> Vec<u8> {
    encoder::encode(&message(addr, args)).expect("encode test packet")
}

fn encode_bundle(msgs: Vec<(&str, Vec<OscType>)>) -> Vec<u8> {
    let content = msgs.into_iter().map(|(addr, args)| message(addr, args)).collect();
    let packet = OscPacket::Bundle(OscBundle { timetag: OscTime::from((0, 1)), content });
    encoder::encode(&packet).expect("encode test bundle")
}

#[test]
fn dispatch_bpm_message_sets_bpm() {
    let bytes = encode_msg("/audio/bpm/bpm", vec![OscType::Float(128.5)]);
    let mut b = AudioFrameBuilder::new();
    dispatch_packet(&bytes, &mut b).expect("decode ok");
    let frame = b.snapshot();
    assert!((f(frame.bpm) - 128.5).abs() < 1e-4);
}

#[test]
fn dispatch_levels_and_hits() {
    let bytes = encode_bundle(vec![
        ("/audio/level/bass", vec![OscType::Float(0.75)]),
        ("/audio/level/mid", vec![OscType::Float(0.4)]),
        ("/audio/hits/bass", vec![OscType::Float(0.9)]),
    ]);
    let mut b = AudioFrameBuilder::new();
    dispatch_packet(&bytes, &mut b).expect("decode ok");
    let frame = b.snapshot();
    assert!((f(frame.levels.bass) - 0.75).abs() < 1e-4);
    assert!((f(frame.levels.mid) - 0.4).abs() < 1e-4);
    assert!((f(frame.hits.bass) - 0.9).abs() < 1e-4);
}

#[test]
fn dispatch_onbeat_sets_envelope() {
    let bytes = encode_msg("/audio/beat/onbeat", vec![OscType::Float(0.8)]);
    let mut b = AudioFrameBuilder::new();
    dispatch_packet(&bytes, &mut b).expect("decode ok");
    assert!((f(b.snapshot().on_beat) - 0.8).abs() < 1e-4);
}

#[test]
fn dispatch_onbeat_clamps_above_one() {
    let bytes = encode_msg("/audio/beat/onbeat", vec![OscType::Float(2.0)]);
    let mut b = AudioFrameBuilder::new();
    dispatch_packet(&bytes, &mut b).expect("decode ok");
    assert!((f(b.snapshot().on_beat) - 1.0).abs() < f32::EPSILON);
}

#[test]
fn dispatch_intensity() {
    let bytes = encode_msg("/audio/energy/intensity", vec![OscType::Float(0.42)]);
    let mut b = AudioFrameBuilder::new();
    dispatch_packet(&bytes, &mut b).expect("decode ok");
    let frame = b.snapshot();
    assert!((f(frame.intensity) - 0.42).abs() < 1e-4);
}

#[test]
fn out_of_range_bpm_clamps_without_panic() {
    let bytes = encode_msg("/audio/bpm/bpm", vec![OscType::Float(500.0)]);
    let mut b = AudioFrameBuilder::new();
    dispatch_packet(&bytes, &mut b).expect("decode ok");
    let frame = b.snapshot();
    assert!((f(frame.bpm) - f32::from_bits(BPM_MAX)).abs() < f32::EPSILON);
}

#[test]
fn unknown_address_is_skipped_silently() {
    let bytes = encode_msg("/totally/made/up", vec![OscType::Float(1.0)]);
    let mut b = AudioFrameBuilder::new();
    dispatch_packet(&bytes, &mut b).expect("decode ok");
    let _ = b.snapshot();
}

#[test]
fn malformed_packet_returns_decode_error_no_panic() {
    let bytes = b"not a valid osc packet at all".to_vec();
    let mut b = AudioFrameBuilder::new();
    let err = dispatch_packet(&bytes, &mut b).expect_err("must fail");
    assert!(matches!(err, IngressError::Decode(_)));
}

#[test]
fn missing_arg_is_skipped_without_panic() {
    let bytes = encode_msg("/audio/bpm/bpm", vec![]);
    let mut b = AudioFrameBuilder::new();
    dispatch_packet(&bytes, &mut b).expect("decode ok");
    let frame = b.snapshot();
    assert!((f(frame.bpm) - 120.0).abs() < f32::EPSILON);
}

#[test]
fn wrong_arg_type_is_skipped_without_panic() {
    let bytes = encode_msg("/audio/bpm/bpm", vec![OscType::String("nope".into())]);
    let mut b = AudioFrameBuilder::new();
    dispatch_packet(&bytes, &mut b).expect("decode ok");
    let frame = b.snapshot();
    assert!((f(frame.bpm) - 120.0).abs() < f32::EPSILON);
}

#[test]
fn first_float_coerces_int_and_double() {
    let m = |arg: Arg| Message { addr: "/x".into(), args: vec![arg] };
    let double = |v: f64| Arg::Double(Double { bits: v.to_bits() });
    assert!((f(first_float(&m(Arg::Int(7))).expect("some")) - 7.0).abs() < f32::EPSILON);
    assert!((f(first_float(&m(double(3.5))).expect("some")) - 3.5).abs() < 1e-6);
    assert!(first_float(&m(Arg::String("nope".into()))).is_none());
}

#[test]
fn listener_round_trip_over_loopback() {
    let bytes = encode_bundle(vec![
        ("/audio/bpm/bpm", vec![OscType::Float(140.0)]),
        ("/audio/level/bass", vec![OscType::Float(0.6)]),
        ("/audio/beat/onbeat", vec![OscType::Float(0.7)]),
    ]);
    let mut builder = AudioFrameBuilder::new();
    let (frame, _) = ingest(&bytes, &mut builder).expect("ingest");
    assert!((f(frame.bpm) - 140.0).abs() < 1e-4);
    assert!((f(frame.levels.bass) - 0.6).abs() < 1e-4);
    assert!((f(frame.on_beat) - 0.7).abs() < 1e-4);
    let mirror = builder.clone();
    assert!((f(mirror.bpm()) - 140.0).abs() < 1e-4);
}

#[test]
fn recv_with_packet_returns_frame_and_decoded_packet() {
    let bytes = encode_bundle(vec![
        ("/audio/bpm/bpm", vec![OscType::Float(96.0)]),
        ("/audio/level/mid", vec![OscType::Float(0.33)]),
    ]);
    let mut builder = AudioFrameBuilder::new();
    let (frame, packet) = ingest(&bytes, &mut builder).expect("ingest");
    assert!((f(frame.bpm) - 96.0).abs() < 1e-4);
    assert!((f(frame.levels.mid) - 0.33).abs() < 1e-4);
    match packet {
        Packet::Bundle(time, items) => {
            assert_eq!(items.len(), 2);
            assert_eq!(time, TimeTag { seconds: 0, fractional: 1 });
        }
        Packet::Message(_) => panic!("expected a bundle"),
    }
}

const PIXEL_COUNT: usize = 8;
const TEST_UNIVERSE: u16 = 1;

fn gamma_encode(linear: Single) -> u8 {
    let x = f32::from_bits(clamp_unit(linear).bits);
    (x.powf(1.0 / 2.2) * 255.0).round() as u8
}

fn test_zones() -> Vec<Zone> {
    vec![Zone {
        id: ZoneId("strip".to_string()),
        kind: ZoneKind::PixelStrip,
        size: ZoneSize::Strip { count: PIXEL_COUNT as u32 },
    }]
}

/// The one packet that goes out for a frame on the bus.
fn sent_packet(bus: &Bus, name: &str) -> Vec<u8> {
    let mut adapter = SacnAdapterBuilder::new(name, Host::V4([127, 0, 0, 1]))
        .universes(vec![TEST_UNIVERSE])
        .native_rate(Period { secs: 0, nanos: 5_000_000 })
        .source_name("audiophore-loopback")
        .zones(test_zones())
        .build()
        .expect("build sACN adapter");
    adapter.connect();
    let slots = adapter.render(&bus.snapshot(), &gamma_encode).expect("pixels");
    match adapter.send_slots(&slots, SendEvent::Start) {
        SendAction::Transmit(packet) => packet,
        other => panic!("expected a packet, got {other:?}"),
    }
}

#[test]
fn m1_loopback_osc_to_sacn_mock_receiver() {
    let bass = 0.8_f32;
    let bytes = encode_bundle(vec![
        ("/audio/bpm/bpm", vec![OscType::Float(120.0)]),
        ("/audio/level/bass", vec![OscType::Float(bass)]),
        ("/audio/energy/intensity", vec![OscType::Float(1.0)]),
    ]);
    let mut builder = AudioFrameBuilder::new();
    let (audio_frame, _) = ingest(&bytes, &mut builder).expect("decode");
    assert!((f(audio_frame.bpm) - 120.0).abs() < 1e-4);
    assert!((f(audio_frame.intensity) - 1.0).abs() < 1e-4);
    assert!((f(audio_frame.levels.bass) - bass).abs() < 1e-4);

    let mut bus = Bus::empty();
    bus.publish(map_m1(&audio_frame, &test_zones(), 1));
    let packet = sent_packet(&bus, "loopback-test");

    assert!(packet.len() >= 38);
    assert_eq!(&packet[0..2], &[0x00, 0x10], "preamble size mismatch");
    assert_eq!(&packet[2..4], &[0x00, 0x00], "post-amble size mismatch");
    assert_eq!(&packet[4..16], ACN_PACKET_IDENTIFIER.as_slice());
    assert_eq!(&packet[18..22], &[0x00, 0x00, 0x00, 0x04]);
    assert_eq!(&packet[40..44], &[0x00, 0x00, 0x00, 0x02]);
    let universe = u16::from_be_bytes([packet[113], packet[114]]);
    assert_eq!(universe, TEST_UNIVERSE);
    assert_eq!(packet[117], 0x02);
    let property_value_count = u16::from_be_bytes([packet[123], packet[124]]);
    let expected_slots = (PIXEL_COUNT * 3) as u16;
    assert_eq!(property_value_count, 1 + expected_slots);
    assert_eq!(packet[125], 0x00);
    let expected_total = 38 + 77 + 10 + 1 + usize::from(expected_slots);
    assert_eq!(packet.len(), expected_total);

    let expected_red = gamma_encode(Single { bits: bass.to_bits() });
    assert!(expected_red > 0);
    assert_eq!(packet[126], expected_red);
    assert_eq!(packet[127], 0, "first pixel green slot should be 0");
    assert_eq!(packet[128], 0, "first pixel blue slot should be 0");
}

#[test]
fn m1_loopback_zero_input_renders_zero_slots() {
    let mut zones = ZoneMap::new();
    let pixels: Vec<Rgb> = vec![Rgb::default(); PIXEL_COUNT];
    zones.insert(ZoneId("strip".to_string()), ZonePayload::Pixels(pixels));
    let mut bus = Bus::empty();
    bus.publish(ResolvedFrame { tick: 1, t: Double { bits: 0 }, zones });
    let packet = sent_packet(&bus, "loopback-zero");

    let slots_start = 126;
    let slots_end = slots_start + PIXEL_COUNT * 3;
    assert!(packet.len() >= slots_end);
    for (i, byte) in packet[slots_start..slots_end].iter().enumerate() {
        assert_eq!(*byte, 0, "slot byte {i} should be 0 for an all-black input");
    }
}

#[test]
fn every_address_goes_to_its_target() {
    let bands = [
        ("all", Band::Whole),
        ("bass", Band::Bass),
        ("mid", Band::Mid),
        ("midhigh", Band::MidHigh),
        ("high", Band::High),
    ];
    for (name, band) in bands {
        assert_eq!(route(&format!("/audio/level/{name}")), Some(Target::Level(band)));
        assert_eq!(route(&format!("/audio/hits/{name}")), Some(Target::Hit(band)));
        assert_eq!(route(&format!("/audio/presence/{name}")), Some(Target::Presence(band)));
    }
    assert_eq!(route("/audio/beat/onbeat"), Some(Target::OnBeat));
    assert_eq!(route("/audio/bpm/bpm"), Some(Target::Bpm));
    assert_eq!(route("/audio/bpm/bpmconfidence"), Some(Target::BpmConfidence));
    assert_eq!(route("/audio/energy/intensity"), Some(Target::Intensity));
}

#[test]
fn addresses_that_are_not_kept_go_nowhere() {
    for addr in [
        "/audio/level/raw",
        "/audio/beat/randomonbeat",
        "/audio/beat/beattime",
        "/audio/bpm/bpmsin",
        "/audio/bpm/bpmtwitcher",
        "/audio/time/bass",
        "/controls/meta/speed",
        "/audio/level/Bass",
        "/audio/level/bass/",
        "",
    ] {
        assert_eq!(route(addr), None, "{addr}");
    }
}

#[test]
fn bundles_in_bundles_are_applied_in_order() {
    let inner = OscPacket::Bundle(OscBundle {
        timetag: OscTime::from((0, 1)),
        content: vec![
            message("/audio/bpm/bpm", vec![OscType::Float(100.0)]),
            message("/audio/level/high", vec![OscType::Float(0.25)]),
        ],
    });
    let outer = OscPacket::Bundle(OscBundle {
        timetag: OscTime::from((0, 1)),
        content: vec![
            message("/audio/bpm/bpm", vec![OscType::Float(90.0)]),
            inner,
            message("/audio/level/high", vec![OscType::Float(0.5)]),
        ],
    });
    let bytes = encoder::encode(&outer).unwrap();
    let mut b = AudioFrameBuilder::new();
    dispatch_packet(&bytes, &mut b).unwrap();
    let frame = b.snapshot();
    assert_eq!(f(frame.bpm), 100.0);
    assert_eq!(f(frame.levels.high), 0.5);
}

#[test]
fn numbers_of_other_types_are_coerced_on_the_way_in() {
    let mut b = AudioFrameBuilder::new();
    dispatch_packet(&encode_msg("/audio/bpm/bpm", vec![OscType::Int(130)]), &mut b).unwrap();
    assert_eq!(f(b.bpm()), 130.0);
    let bytes = encode_msg("/audio/bpm/bpm", vec![OscType::Double(75.1)]);
    dispatch_packet(&bytes, &mut b).unwrap();
    assert_eq!(f(b.bpm()), 75.1_f64 as f32);
    let bytes = encode_msg("/audio/bpm/bpm", vec![OscType::Long(99)]);
    dispatch_packet(&bytes, &mut b).unwrap();
    assert_eq!(f(b.bpm()), 75.1_f64 as f32);
}

#[test]
fn only_the_first_argument_counts() {
    let bytes = encode_msg(
        "/audio/bpm/bpm",
        vec![OscType::String("x".into()), OscType::Float(99.0)],
    );
    let mut b = AudioFrameBuilder::new();
    dispatch_packet(&bytes, &mut b).unwrap();
    assert_eq!(f(b.bpm()), 120.0);
}

#[test]
fn a_malformed_datagram_changes_nothing() {
    let mut b = AudioFrameBuilder::new();
    let bytes = encode_msg("/audio/bpm/bpm", vec![OscType::Float(77.0)]);
    dispatch_packet(&bytes, &mut b).unwrap();
    assert!(dispatch_packet(&[], &mut b).is_err());
    assert!(dispatch_packet(&bytes[..bytes.len() - 2], &mut b).is_err());
    assert!(matches!(ingest(b"nope", &mut b), Err(IngressError::Decode(_))));
    assert_eq!(f(b.bpm()), 77.0);
}

#[test]
fn a_message_is_applied_once() {
    let mut b = AudioFrameBuilder::new();
    let m = Message { addr: "/audio/level/mid".into(), args: vec![Arg::Int(1)] };
    apply_message(&m, &mut b);
    let frame = b.snapshot();
    assert_eq!(f(frame.levels.mid), 1.0);
    assert_eq!(f(frame.levels.bass), 0.0);
}

#[test]
fn every_kind_of_argument_is_taken_apart() {
    let args = vec![
        OscType::Int(-7),
        OscType::Float(0.5),
        OscType::String("abc".into()),
        OscType::Blob(vec![1, 2, 3]),
        OscType::Time(OscTime::from((1, 2))),
        OscType::Long(1 << 40),
        OscType::Double(0.25),
        OscType::Char('q'),
        OscType::Color(OscColor { red: 1, green: 2, blue: 3, alpha: 4 }),
        OscType::Midi(OscMidiMessage { port: 1, status: 2, data1: 3, data2: 4 }),
        OscType::Bool(true),
        OscType::Array(rosc::OscArray {
            content: vec![
                OscType::Nil,
                OscType::Array(rosc::OscArray { content: vec![OscType::Int(3)] }),
            ],
        }),
        OscType::Nil,
        OscType::Inf,
    ];
    let mut builder = AudioFrameBuilder::new();
    let Ok((_, Packet::Message(m))) = ingest(&encode_msg("/x/y", args), &mut builder) else {
        panic!("expected a message");
    };
    assert_eq!(m.addr, "/x/y");
    assert_eq!(m.args.len(), 14);
    assert!(matches!(m.args[0], Arg::Int(-7)));
    assert!(matches!(m.args[1], Arg::Float(v) if v.bits == 0.5f32.to_bits()));
    assert!(matches!(&m.args[2], Arg::String(v) if v == "abc"));
    assert!(matches!(&m.args[3], Arg::Blob(v) if *v == vec![1, 2, 3]));
    assert!(matches!(m.args[4], Arg::Time(TimeTag { seconds: 1, fractional: 2 })));
    assert!(matches!(m.args[5], Arg::Long(v) if v == 1 << 40));
    assert!(matches!(m.args[6], Arg::Double(v) if v.bits == 0.25f64.to_bits()));
    assert!(matches!(m.args[7], Arg::Char('q')));
    assert!(matches!(m.args[8], Arg::Color(1, 2, 3, 4)));
    assert!(matches!(m.args[9], Arg::Midi(1, 2, 3, 4)));
    assert!(matches!(m.args[10], Arg::Bool(true)));
    let Arg::Array(items) = &m.args[11] else {
        panic!("expected an array");
    };
    assert_eq!(items.len(), 2);
    assert!(matches!(items[0], Arg::Nil));
    assert!(matches!(&items[1], Arg::Array(inner) if matches!(inner[..], [Arg::Int(3)])));
    assert!(matches!(m.args[12], Arg::Nil));
    assert!(matches!(m.args[13], Arg::Inf));
}

#[test]
fn datagrams_of_64_kib_are_received() {
    assert_eq!(RECV_BUFFER_BYTES, 64 * 1024);
}

#[test]
fn the_engine_publishes_one_frame_for_each_packet() {
    let mut bus = Bus::empty();
    let mut engine = Engine::new(test_zones());
    let time = |t: f64| Double { bits: t.to_bits() };
    let loud = encode_msg("/audio/level/bass", vec![OscType::Float(1.0)]);
    let full = encode_msg("/audio/energy/intensity", vec![OscType::Float(1.0)]);
    let packet = engine.handle(&loud, time(0.5), &mut bus).unwrap();
    assert!(matches!(packet, Packet::Message(m) if m.addr == "/audio/level/bass"));
    assert_eq!(bus.snapshot().tick, 1);
    engine.handle(&full, time(0.75), &mut bus).unwrap();
    let snap = bus.snapshot();
    assert_eq!(snap.tick, 2);
    assert_eq!(f64::from_bits(snap.t.bits), 0.75);
    let Some(ZonePayload::Pixels(pixels)) = snap.zones.get(&ZoneId("strip".to_string())) else {
        panic!("expected pixels");
    };
    assert_eq!(pixels.len(), PIXEL_COUNT);
    assert_eq!(f(pixels[0].r), 1.0);
    assert_eq!(f(pixels[0].g), 0.0);

    assert!(engine.handle(b"nope", time(1.0), &mut bus).is_err());
    assert_eq!(bus.snapshot().tick, 2);
    engine.handle(&full, time(f64::NAN), &mut bus).unwrap();
    assert_eq!(bus.snapshot().tick, 3);
    assert_eq!(f64::from_bits(bus.snapshot().t.bits), 0.75);
}

#[test]
fn the_latest_value_counts_and_others_are_not_disturbed() {
    let float = |v: f32| vec![OscType::Float(v)];
    let mut one = AudioFrameBuilder::new();
    let bytes = encode_bundle(vec![
        ("/audio/level/mid", float(0.1)),
        ("/audio/hits/mid", float(0.2)),
        ("/audio/level/mid", float(0.3)),
    ]);
    dispatch_packet(&bytes, &mut one).unwrap();
    let mut other = AudioFrameBuilder::new();
    let bytes = encode_bundle(vec![
        ("/audio/hits/mid", float(0.2)),
        ("/audio/level/mid", float(0.3)),
    ]);
    dispatch_packet(&bytes, &mut other).unwrap();
    let (a, b) = (one.snapshot(), other.snapshot());
    assert_eq!(f(a.levels.mid), 0.3);
    assert_eq!(a.levels.mid.bits, b.levels.mid.bits);
    assert_eq!(a.hits.mid.bits, b.hits.mid.bits);
    assert_eq!(a.levels.high.bits, 0);
}

#[test]
fn time_phase_and_fade_do_not_come_over_the_wire() {
    let mut b = AudioFrameBuilder::new();
    b.set_t(Double { bits: 3.0f64.to_bits() });
    b.set_beat_phase(Single { bits: 0.5f32.to_bits() });
    for addr in ["/audio/time/bass", "/audio/beat/phase", "/audio/fade", "/audio/fade/in"] {
        dispatch_packet(&encode_msg(addr, vec![OscType::Float(0.25)]), &mut b).unwrap();
    }
    let frame = b.snapshot();
    assert_eq!(f64::from_bits(frame.t.bits), 3.0);
    assert_eq!(f(frame.beat_phase), 0.5);
    assert_eq!(f(frame.fade), 1.0);
}

#[test]
fn errors_come_from_their_causes() {
    let refused = || std::io::Error::from(std::io::ErrorKind::ConnectionRefused);
    assert!(matches!(IngressError::from(refused()), IngressError::Io(_)));
    assert!(matches!(AdapterError::from(refused()), AdapterError::Io(_)));
    assert!(matches!(
        IngressError::from(rosc::OscError::Unimplemented),
        IngressError::Decode(_)
    ));
}

#[test]
fn errors_have_their_texts() {
    let refused = || std::io::Error::from(std::io::ErrorKind::ConnectionRefused);
    assert_eq!(IngressError::Io(refused()).message("gone"), "UDP I/O error: gone");
    let decode = IngressError::Decode(rosc::OscError::Unimplemented);
    assert_eq!(decode.message("Unimplemented"), "OSC decode error: Unimplemented");
    assert_eq!(AdapterError::Connect("a".into()).message("x"), "connect failed: a");
    assert_eq!(AdapterError::Render("b".into()).message("x"), "render failed: b");
    assert_eq!(AdapterError::Io(refused()).message("gone"), "io: gone");
    assert_eq!(AdapterError::Protocol("c".into()).message(""), "protocol: c");
}
