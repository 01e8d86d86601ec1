use audiophore::adapter::{
    Host, SacnAdapter, SacnAdapterBuilder, SendAction, SendEvent, DEFAULT_NATIVE_RATE,
    MAX_UNIVERSES,
};
use audiophore::adapter_core::{AdapterError, Capability};
use audiophore::binary32::{Double, Single};
use audiophore::cid::Cid;
use audiophore::frame::clamp_unit;
use audiophore::partition::{partition_rgb, universes_for};
use audiophore::types::{
    Period, ResolvedFrame, Rgb, Zone, ZoneId, ZoneKind, ZonePayload, ZoneSize,
};
use audiophore::zone_map::ZoneMap;

const LOCALHOST: Host = Host::V4([127, 0, 0, 1]);

fn s(v: f32) -> Single {
    Single { bits: v.to_bits() }
}

fn gamma_encode(linear: Single) -> u8 {
    let x = f32::from_bits(clamp_unit(linear).bits);
    (x.powf(1.0 / 2.2) * 255.0).round() as u8
}

fn linear_rgb(r: f32, g: f32, b: f32) -> Rgb {
    Rgb { r: s(r), g: s(g), b: s(b) }
}

fn black() -> Rgb {
    linear_rgb(0.0, 0.0, 0.0)
}

fn frame_of(id: &str, payload: ZonePayload) -> ResolvedFrame {
    let mut zones = ZoneMap::new();
    zones.insert(ZoneId(id.to_string()), payload);
    ResolvedFrame { tick: 0, t: Double { bits: 0 }, zones }
}

/// Sends the slots of one tick and collects the packets that go out.
fn send_all(adapter: &mut SacnAdapter, slots: &[Vec<u8>]) -> Result<Vec<Vec<u8>>, AdapterError> {
    let mut packets: Vec<Vec<u8>> = Vec::new();
    let mut event = SendEvent::Start;
    loop {
        match adapter.send_slots(slots, event) {
            SendAction::Transmit(packet) => {
                packets.push(packet);
                event = SendEvent::Sent(packets.len());
            }
            SendAction::Done => return Ok(packets),
            SendAction::Fail(error) => return Err(error),
        }
    }
}

fn render(
    adapter: &mut SacnAdapter,
    frame: &ResolvedFrame,
) -> Result<Vec<Vec<u8>>, AdapterError> {
    match adapter.render(frame, &gamma_encode) {
        Some(slots) => send_all(adapter, &slots),
        None => Ok(Vec::new()),
    }
}

#[test]
fn partitions_300_pixels_into_170_plus_130() {
    let pixels = vec![black(); 300];
    let chunks = partition_rgb(&pixels, 2, &gamma_encode);
    assert_eq!(chunks.len(), 2);
    assert_eq!(chunks[0].len(), 170 * 3);
    assert_eq!(chunks[1].len(), 130 * 3);
}

#[test]
fn partitions_170_pixels_into_one_universe() {
    let pixels = vec![black(); 170];
    let chunks = partition_rgb(&pixels, 2, &gamma_encode);
    assert_eq!(chunks.len(), 2);
    assert_eq!(chunks[0].len(), 170 * 3);
    assert_eq!(chunks[1].len(), 0);
}

#[test]
fn partitions_zero_universes_returns_empty() {
    let pixels = vec![black(); 10];
    let chunks = partition_rgb(&pixels, 0, &gamma_encode);
    assert!(chunks.is_empty());
}

#[test]
fn partition_applies_gamma_to_pure_red() {
    let pixels = vec![linear_rgb(1.0, 0.0, 0.0); 1];
    let chunks = partition_rgb(&pixels, 1, &gamma_encode);
    assert_eq!(chunks[0], vec![0xff, 0x00, 0x00]);
}

#[test]
fn pixels_that_do_not_fit_are_dropped() {
    let pixels: Vec<Rgb> = (0..400).map(|i| linear_rgb(i as f32, 0.0, 0.0)).collect();
    let chunks = partition_rgb(&pixels, 2, &|v: Single| (f32::from_bits(v.bits) as u32 % 256) as u8);
    assert_eq!(chunks.len(), 2);
    assert_eq!(chunks[0].len(), 510);
    assert_eq!(chunks[1].len(), 510);
    assert_eq!(chunks[0][3 * 169], 169);
    assert_eq!(chunks[1][0], 170);
    assert_eq!(chunks[1][3 * 169], (339 % 256) as u8);
}

#[test]
fn channels_are_encoded_in_order() {
    let pixels = vec![linear_rgb(1.0, 2.0, 3.0), linear_rgb(4.0, 5.0, 6.0)];
    let chunks = partition_rgb(&pixels, 1, &|v: Single| f32::from_bits(v.bits) as u8);
    assert_eq!(chunks, vec![vec![1, 2, 3, 4, 5, 6]]);
}

#[test]
fn build_rejects_empty_universe_list() {
    let err = SacnAdapterBuilder::new("test", LOCALHOST)
        .universes(vec![])
        .build()
        .unwrap_err();
    assert!(matches!(err, AdapterError::Protocol(_)));
}

#[test]
fn build_rejects_too_many_universes() {
    let limit = MAX_UNIVERSES as u16 + 1;
    let universes: Vec<u16> = (1..=limit).collect();
    let err = SacnAdapterBuilder::new("test", LOCALHOST)
        .universes(universes)
        .build()
        .unwrap_err();
    assert!(matches!(err, AdapterError::Protocol(_)));
}

#[test]
fn build_rejects_universe_out_of_range() {
    let err = SacnAdapterBuilder::new("test", LOCALHOST)
        .universes(vec![0])
        .build()
        .unwrap_err();
    assert!(matches!(err, AdapterError::Protocol(_)));
    let err = SacnAdapterBuilder::new("test", LOCALHOST)
        .universes(vec![64_000])
        .build()
        .unwrap_err();
    assert!(matches!(err, AdapterError::Protocol(_)));
}

#[test]
fn build_rejects_priority_above_200() {
    let err = SacnAdapterBuilder::new("test", LOCALHOST)
        .priority(201)
        .build()
        .unwrap_err();
    assert!(matches!(err, AdapterError::Protocol(_)));
}

fn protocol_text(builder: SacnAdapterBuilder) -> String {
    match builder.build() {
        Err(AdapterError::Protocol(text)) => text,
        _ => panic!("expected a protocol error"),
    }
}

#[test]
fn build_says_what_is_wrong() {
    let fresh = || SacnAdapterBuilder::new("test", LOCALHOST);
    assert_eq!(protocol_text(fresh().universes(vec![])), "universe list must not be empty");
    assert_eq!(
        protocol_text(fresh().universes((1..=65).collect())),
        "too many universes (65); max is 64"
    );
    assert_eq!(
        protocol_text(fresh().universes(vec![1, 64_000, 0])),
        "universe 64000 out of range 1..=63_999"
    );
    assert_eq!(protocol_text(fresh().priority(201)), "priority 201 out of range 0..=200");
    // The universes are looked at before the priority.
    assert_eq!(
        protocol_text(fresh().priority(201).universes(vec![0])),
        "universe 0 out of range 1..=63_999"
    );
}

#[test]
fn sixty_four_universes_and_priority_200_are_accepted() {
    let adapter = SacnAdapterBuilder::new("test", LOCALHOST)
        .universes((1..=64).collect())
        .priority(200)
        .build()
        .unwrap();
    assert_eq!(adapter.universes().len(), MAX_UNIVERSES);
}

#[test]
fn a_builder_has_the_documented_defaults() {
    let adapter = SacnAdapterBuilder::new("strip", LOCALHOST).build().unwrap();
    assert_eq!(adapter.name(), "strip");
    assert_eq!(adapter.universes(), &[1]);
    assert_eq!(adapter.capabilities(), &[Capability::Rgb, Capability::PixelStrip]);
    assert!(adapter.zones().is_empty());
    assert_eq!(adapter.native_rate(), Period { secs: 0, nanos: 22_727_000 });
    assert_eq!(DEFAULT_NATIVE_RATE, 22_727);
    assert_eq!(adapter.target(), (LOCALHOST, 5568));
    assert_eq!(adapter.next_sequence(), 0);
    assert_eq!(adapter.packet_builder().cid().as_bytes()[6] >> 4, 4);
}

#[test]
fn a_builder_keeps_what_is_set() {
    let cid = Cid::from_bytes([7; 16]);
    let zone = Zone {
        id: ZoneId("strip".to_string()),
        kind: ZoneKind::PixelStrip,
        size: ZoneSize::Strip { count: 3 },
    };
    let mut adapter = SacnAdapterBuilder::new("strip", Host::V6([1; 16]))
        .target_port(9)
        .universes(vec![5, 3])
        .priority(7)
        .native_rate(Period { secs: 1, nanos: 5 })
        .source_name("desk")
        .cid(cid)
        .zones(vec![zone.clone()])
        .capabilities(vec![Capability::Dimmer])
        .build()
        .unwrap();
    assert_eq!(adapter.target(), (Host::V6([1; 16]), 9));
    assert_eq!(adapter.universes(), &[5, 3]);
    assert_eq!(adapter.native_rate(), Period { secs: 1, nanos: 5 });
    assert_eq!(adapter.packet_builder().cid(), cid);
    assert_eq!(adapter.zones()[0].id, zone.id);
    assert_eq!(adapter.capabilities(), &[Capability::Dimmer]);
    adapter.connect();
    let packets = send_all(&mut adapter, &[vec![1], vec![2, 3]]).unwrap();
    assert_eq!(packets[0][108], 7);
    assert_eq!(&packets[0][44..49], b"desk\0");
    assert_eq!(&packets[0][22..38], &[7; 16]);
    assert_eq!(&packets[0][113..115], &[0, 5]);
    assert_eq!(&packets[1][113..115], &[0, 3]);
    assert_eq!(&packets[1][126..], &[2, 3]);
}

#[test]
fn render_to_loopback_round_trip_two_universes() {
    let mut adapter = SacnAdapterBuilder::new("test", LOCALHOST)
        .universes(vec![1, 2])
        .source_name("audiophore-test")
        .build()
        .unwrap();
    adapter.connect();
    let frame = frame_of("strip", ZonePayload::Pixels(vec![linear_rgb(1.0, 0.0, 0.0); 300]));
    let packets = render(&mut adapter, &frame).unwrap();

    assert_eq!(packets.len(), 2);
    let lens: Vec<usize> = packets.iter().map(Vec::len).collect();
    assert!(
        lens.contains(&636) && lens.contains(&516),
        "expected packet lengths 636 and 516, got {lens:?}"
    );
    for pkt in &packets {
        assert_eq!(pkt[111], 0, "sequence should be 0 on the first tick");
        let universe = u16::from_be_bytes([pkt[113], pkt[114]]);
        assert!(universe == 1 || universe == 2, "unexpected universe {universe}");
    }
    let cid_a = &packets[0][22..38];
    let cid_b = &packets[1][22..38];
    assert_eq!(cid_a, cid_b);
}

#[test]
fn sequence_wraps_at_u8_max() {
    let mut adapter = SacnAdapterBuilder::new("test", LOCALHOST)
        .universes(vec![1])
        .source_name("audiophore-test")
        .build()
        .unwrap();
    adapter.connect();
    let frame = frame_of("strip", ZonePayload::Pixels(vec![linear_rgb(0.5, 0.5, 0.5); 1]));
    for expected_seq in 0_u32..=257 {
        let packets = render(&mut adapter, &frame).unwrap();
        let got = packets[0][111];
        let want = expected_seq as u8;
        assert_eq!(got, want, "tick {expected_seq}: expected seq {want}, got {got}");
    }
    assert_eq!(adapter.next_sequence(), 2);
}

#[test]
fn render_with_no_pixel_payload_is_noop() {
    let mut adapter = SacnAdapterBuilder::new("test", LOCALHOST)
        .universes(vec![1])
        .build()
        .unwrap();
    adapter.connect();
    let frame = frame_of("bulb", ZonePayload::Fixture(linear_rgb(1.0, 1.0, 1.0), s(0.5)));
    let packets = render(&mut adapter, &frame).unwrap();
    assert!(packets.is_empty(), "expected no packet");
    assert_eq!(adapter.next_sequence(), 0);
}

#[test]
fn render_before_connect_returns_connect_error() {
    let mut adapter = SacnAdapterBuilder::new("test", LOCALHOST)
        .universes(vec![1])
        .build()
        .unwrap();
    let frame = frame_of("strip", ZonePayload::Pixels(vec![linear_rgb(0.0, 0.0, 0.0); 1]));
    let err = render(&mut adapter, &frame).unwrap_err();
    assert!(matches!(err, AdapterError::Connect(_)));
}

#[test]
fn disconnect_is_idempotent() {
    let mut adapter = SacnAdapterBuilder::new("test", LOCALHOST)
        .universes(vec![1])
        .build()
        .unwrap();
    adapter.connect();
    adapter.disconnect();
    adapter.disconnect();
    assert!(matches!(send_all(&mut adapter, &[vec![]]), Err(AdapterError::Connect(_))));
}

#[test]
fn slots_for_another_number_of_universes_are_refused() {
    let mut adapter = SacnAdapterBuilder::new("test", LOCALHOST)
        .universes(vec![1, 2])
        .build()
        .unwrap();
    adapter.connect();
    match send_all(&mut adapter, &[vec![0; 3]]) {
        Err(AdapterError::Protocol(text)) => {
            assert_eq!(text, "slot universe count 1 != adapter universe count 2");
        }
        other => panic!("expected a protocol error, got {other:?}"),
    }
}

#[test]
fn slots_that_do_not_fit_are_refused_and_keep_the_sequence() {
    let mut adapter = SacnAdapterBuilder::new("test", LOCALHOST).build().unwrap();
    adapter.connect();
    match send_all(&mut adapter, &[vec![0; 513]]) {
        Err(AdapterError::Protocol(text)) => {
            assert_eq!(text, "too many slots: 513; max is 512");
        }
        other => panic!("expected a protocol error, got {other:?}"),
    }
    assert_eq!(adapter.next_sequence(), 0);
}

#[test]
fn a_failed_transmission_ends_the_tick_and_keeps_the_sequence() {
    let mut adapter = SacnAdapterBuilder::new("test", LOCALHOST)
        .universes(vec![1, 2])
        .build()
        .unwrap();
    adapter.connect();
    let slots = [vec![1], vec![2]];
    assert!(matches!(
        adapter.send_slots(&slots, SendEvent::Start),
        SendAction::Transmit(_)
    ));
    let error = std::io::Error::from(std::io::ErrorKind::ConnectionRefused);
    match adapter.send_slots(&slots, SendEvent::Failed(error)) {
        SendAction::Fail(AdapterError::Io(e)) => {
            assert_eq!(e.kind(), std::io::ErrorKind::ConnectionRefused);
        }
        other => panic!("expected an I/O error, got {other:?}"),
    }
    assert_eq!(adapter.next_sequence(), 0);
}

#[test]
fn the_first_zone_with_pixels_is_rendered() {
    let mut zones = ZoneMap::new();
    zones.insert(ZoneId("raw".to_string()), ZonePayload::Channels(vec![9, 9]));
    zones.insert(
        ZoneId("left".to_string()),
        ZonePayload::Pixels(vec![linear_rgb(1.0, 1.0, 1.0)]),
    );
    zones.insert(
        ZoneId("right".to_string()),
        ZonePayload::Pixels(vec![linear_rgb(0.0, 0.0, 0.0)]),
    );
    let frame = ResolvedFrame { tick: 0, t: Double { bits: 0 }, zones };
    let adapter = SacnAdapterBuilder::new("test", LOCALHOST).build().unwrap();
    assert_eq!(adapter.render(&frame, &gamma_encode), Some(vec![vec![255, 255, 255]]));
}

#[test]
fn partition_pixels_uses_the_universes_of_the_adapter() {
    let adapter = SacnAdapterBuilder::new("test", LOCALHOST)
        .universes(vec![1, 2, 3])
        .build()
        .unwrap();
    let chunks = adapter.partition_pixels(&vec![black(); 200], &gamma_encode);
    let lens: Vec<usize> = chunks.iter().map(Vec::len).collect();
    assert_eq!(lens, vec![510, 90, 0]);
}

#[test]
fn pixels_need_a_universe_for_every_170() {
    for (pixels, universes) in [(0, 0), (1, 1), (170, 1), (171, 2), (300, 2), (340, 2), (341, 3)] {
        assert_eq!(universes_for(pixels), universes);
    }
}

#[test]
fn a_whole_tick_sends_every_universe_in_order_with_one_sequence_number() {
    let mut adapter = SacnAdapterBuilder::new("test", LOCALHOST)
        .universes(vec![9, 4, 7])
        .build()
        .unwrap();
    adapter.connect();
    let slots = [vec![1], vec![2], vec![3]];
    for tick in 0..3u8 {
        let packets = send_all(&mut adapter, &slots).unwrap();
        let seen: Vec<(u8, u8, u8)> =
            packets.iter().map(|p| (p[114], p[111], p[126])).collect();
        assert_eq!(seen, vec![(9, tick, 1), (4, tick, 2), (7, tick, 3)]);
    }
    assert_eq!(adapter.next_sequence(), 3);
}
