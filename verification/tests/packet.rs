use audiophore::cid::Cid;
use audiophore::packet::{
    multicast_v4, PackError, PacketBuilder, ACN_PACKET_IDENTIFIER, DEFAULT_PRIORITY,
    DMP_ADDRESS_DATA_TYPE, MAX_DATA_PACKET_LEN, MAX_RGB_PIXELS_PER_UNIVERSE, SACN_PORT,
    VECTOR_DMP_SET_PROPERTY,
};

#[test]
fn encodes_known_wire_vector_single_slot_red() {
    let cid = Cid::from_bytes([
        0x01, 0x02, 0x03, 0x04, 0x05, 0x06, 0x07, 0x08, 0x09, 0x0a, 0x0b, 0x0c, 0x0d, 0x0e, 0x0f,
        0x10,
    ]);
    let mut builder = PacketBuilder::with_cid(cid, "audiophore-test");
    let slots = [0xff_u8, 0x00, 0x00];
    let packet = builder.encode(1, 0, DEFAULT_PRIORITY, &slots).unwrap();

    assert_eq!(packet.len(), 129);

    // Root layer
    assert_eq!(&packet[0..2], &[0x00, 0x10]);
    assert_eq!(&packet[2..4], &[0x00, 0x00]);
    assert_eq!(&packet[4..16], ACN_PACKET_IDENTIFIER.as_slice());
    assert_eq!(&packet[16..18], &[0x70, 0x71]);
    assert_eq!(&packet[18..22], &[0x00, 0x00, 0x00, 0x04]);
    assert_eq!(&packet[22..38], cid.as_bytes());

    // Framing layer
    assert_eq!(&packet[38..40], &[0x70, 0x5b]);
    assert_eq!(&packet[40..44], &[0x00, 0x00, 0x00, 0x02]);
    assert_eq!(&packet[44..59], b"audiophore-test");
    assert!(packet[44 + 64 - 1] == 0);
    assert_eq!(packet[108], DEFAULT_PRIORITY);
    assert_eq!(&packet[109..111], &[0x00, 0x00]);
    assert_eq!(packet[111], 0);
    assert_eq!(packet[112], 0x00);
    assert_eq!(&packet[113..115], &[0x00, 0x01]);

    // DMP layer
    assert_eq!(&packet[115..117], &[0x70, 0x0e]);
    assert_eq!(packet[117], VECTOR_DMP_SET_PROPERTY);
    assert_eq!(packet[118], DMP_ADDRESS_DATA_TYPE);
    assert_eq!(&packet[119..121], &[0x00, 0x00]);
    assert_eq!(&packet[121..123], &[0x00, 0x01]);
    assert_eq!(&packet[123..125], &[0x00, 0x04]);
    assert_eq!(packet[125], 0x00);
    assert_eq!(&packet[126..129], &[0xff, 0x00, 0x00]);
}

#[test]
fn full_universe_packet_is_638_bytes() {
    let mut builder = PacketBuilder::new("audiophore-test");
    let slots = [0xaa_u8; 512];
    let packet = builder.encode(1, 0, DEFAULT_PRIORITY, &slots).unwrap();
    assert_eq!(packet.len(), MAX_DATA_PACKET_LEN);
    assert_eq!(&packet[16..18], &[0x72, 0x6e]);
    assert_eq!(&packet[38..40], &[0x72, 0x58]);
    assert_eq!(&packet[115..117], &[0x72, 0x0b]);
    assert_eq!(&packet[123..125], &[0x02, 0x01]);
}

#[test]
fn rejects_universe_zero() {
    let mut builder = PacketBuilder::new("x");
    let err = builder.encode(0, 0, DEFAULT_PRIORITY, &[0; 3]).unwrap_err();
    assert!(matches!(err, PackError::InvalidUniverse(0)));
}

#[test]
fn rejects_universe_above_63999() {
    let mut builder = PacketBuilder::new("x");
    let err = builder.encode(64_000, 0, DEFAULT_PRIORITY, &[0; 3]).unwrap_err();
    assert!(matches!(err, PackError::InvalidUniverse(64_000)));
}

#[test]
fn rejects_priority_above_200() {
    let mut builder = PacketBuilder::new("x");
    let err = builder.encode(1, 0, 201, &[0; 3]).unwrap_err();
    assert!(matches!(err, PackError::InvalidPriority(201)));
}

#[test]
fn rejects_too_many_slots() {
    let mut builder = PacketBuilder::new("x");
    let err = builder.encode(1, 0, DEFAULT_PRIORITY, &[0; 513]).unwrap_err();
    assert!(matches!(err, PackError::TooManySlots(513)));
}

#[test]
fn source_name_is_truncated_to_63_bytes_plus_null() {
    let long = "a".repeat(100);
    let mut builder = PacketBuilder::new(&long);
    let packet = builder.encode(1, 0, DEFAULT_PRIORITY, &[0; 3]).unwrap();
    assert_eq!(&packet[44..44 + 63], &[b'a'; 63][..]);
    assert_eq!(packet[44 + 63], 0);
}

#[test]
fn cid_is_stable_across_packets() {
    let mut builder = PacketBuilder::new("x");
    let cid = builder.cid();
    let p1 = builder.encode(1, 0, DEFAULT_PRIORITY, &[0; 3]).unwrap();
    let p2 = builder.encode(1, 1, DEFAULT_PRIORITY, &[0; 3]).unwrap();
    assert_eq!(&p1[22..38], cid.as_bytes());
    assert_eq!(&p2[22..38], cid.as_bytes());
}

#[test]
fn multicast_v4_matches_spec() {
    assert_eq!(multicast_v4(1), Some([239, 255, 0, 1]));
    assert_eq!(multicast_v4(256), Some([239, 255, 1, 0]));
    assert_eq!(multicast_v4(63_999), Some([239, 255, 0xf9, 0xff]));
    assert_eq!(multicast_v4(0), None);
    assert_eq!(multicast_v4(64_000), None);
}

#[test]
fn random_identifiers_are_version_four_and_differ() {
    let a = PacketBuilder::new("x").cid();
    let b = PacketBuilder::new("x").cid();
    assert_eq!(a.as_bytes()[6] >> 4, 4);
    assert_eq!(a.as_bytes()[8] >> 6, 2);
    assert!(a != b);
}

#[test]
fn a_packet_without_slots_is_126_bytes() {
    let mut builder = PacketBuilder::new("x");
    let packet = builder.encode(63_999, 255, 200, &[]).unwrap();
    assert_eq!(packet.len(), 126);
    assert_eq!(packet[108], 200);
    assert_eq!(packet[111], 255);
    assert_eq!(&packet[113..115], &[0xf9, 0xff]);
    assert_eq!(&packet[123..125], &[0x00, 0x01]);
}

#[test]
fn packets_with_other_sequence_numbers_differ_in_one_byte() {
    let mut builder = PacketBuilder::new("x");
    let a = builder.encode(7, 3, DEFAULT_PRIORITY, &[1, 2, 3]).unwrap();
    let b = builder.encode(7, 4, DEFAULT_PRIORITY, &[1, 2, 3]).unwrap();
    let differing: Vec<usize> = (0..a.len()).filter(|i| a[*i] != b[*i]).collect();
    assert_eq!(differing, vec![111]);
}

#[test]
fn a_refused_packet_leaves_the_builder_usable() {
    let mut builder = PacketBuilder::new("x");
    assert!(builder.encode(0, 0, DEFAULT_PRIORITY, &[]).is_err());
    assert_eq!(builder.encode(1, 0, DEFAULT_PRIORITY, &[9]).unwrap()[126], 9);
}

#[test]
fn the_first_fault_is_the_one_reported() {
    let mut builder = PacketBuilder::new("x");
    let err = builder.encode(0, 0, 201, &[0; 513]).unwrap_err();
    assert_eq!(err, PackError::InvalidUniverse(0));
    let err = builder.encode(1, 0, 201, &[0; 513]).unwrap_err();
    assert_eq!(err, PackError::InvalidPriority(201));
}

#[test]
fn errors_say_what_is_out_of_range() {
    assert_eq!(
        PackError::InvalidUniverse(64_000).message(),
        "invalid universe 64000; must be in 1..=63_999"
    );
    assert_eq!(
        PackError::InvalidPriority(201).message(),
        "invalid priority 201; must be in 0..=200"
    );
    assert_eq!(PackError::TooManySlots(513).message(), "too many slots: 513; max is 512");
}

#[test]
fn names_that_fit_are_kept_whole() {
    let name = "b".repeat(63);
    let packet = PacketBuilder::new(&name).encode(1, 0, 0, &[]).unwrap();
    assert_eq!(&packet[44..107], name.as_bytes());
    assert_eq!(packet[107], 0);
    let packet = PacketBuilder::new("").encode(1, 0, 0, &[]).unwrap();
    assert_eq!(&packet[44..108], &[0_u8; 64][..]);
}

#[test]
fn constants_of_the_protocol() {
    assert_eq!(SACN_PORT, 5568);
    assert_eq!(DEFAULT_PRIORITY, 100);
    assert_eq!(MAX_RGB_PIXELS_PER_UNIVERSE, 170);
    assert_eq!(&ACN_PACKET_IDENTIFIER, b"ASC-E1.17\0\0\0");
}

#[test]
fn packets_made_from_different_values_differ() {
    let cid = Cid::from_bytes([3; 16]);
    let mut builder = PacketBuilder::with_cid(cid, "x");
    let base = builder.encode(1, 2, 3, &[4]).unwrap();
    assert!(base == builder.encode(1, 2, 3, &[4]).unwrap());
    assert!(base != builder.encode(257, 2, 3, &[4]).unwrap());
    assert!(base != builder.encode(1, 3, 3, &[4]).unwrap());
    assert!(base != builder.encode(1, 2, 4, &[4]).unwrap());
    assert!(base != builder.encode(1, 2, 3, &[4, 0]).unwrap());
    assert!(base != PacketBuilder::with_cid(cid, "y").encode(1, 2, 3, &[4]).unwrap());
}
