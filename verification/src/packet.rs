//! E1.31 data packets.
//!
//! A packet is three nested layers. The root layer carries the preamble, the
//! packet identifier and the identifier of the source. The framing layer
//! carries the source name, priority, sequence number and universe. The DMP
//! layer carries the start code and the slots. Each layer has a field of four
//! flag bits and a twelve-bit length, counted from that field to the end of
//! the packet.

use bytes::BytesMut;
use vstd::prelude::*;
use vstd::string::*;

use crate::buffer::{clear, len, overwrite, put_slice, put_u16, put_u32, put_u8, to_vec, with_capacity};
use crate::cid::Cid;
use crate::text::push_decimal;

verus! {

/// The UDP port of E1.31.
pub const SACN_PORT: u16 = 5568;

/// The recommended priority.
pub const DEFAULT_PRIORITY: u8 = 100;

/// The highest priority.
pub const MAX_PRIORITY: u8 = 200;

/// The highest universe number.
pub const MAX_UNIVERSE: u16 = 63_999;

/// The most slots of a universe.
pub const MAX_SLOTS_PER_UNIVERSE: usize = 512;

/// The most RGB pixels of a universe.
pub const MAX_RGB_PIXELS_PER_UNIVERSE: usize = MAX_SLOTS_PER_UNIVERSE / 3;

/// The packet identifier: `ASC-E1.17` and three zero bytes.
pub const ACN_PACKET_IDENTIFIER: [u8; 12] = [
    0x41,
    0x53,
    0x43,
    0x2d,
    0x45,
    0x31,
    0x2e,
    0x31,
    0x37,
    0,
    0,
    0,
];

/// The length of a packet with all slots.
pub const MAX_DATA_PACKET_LEN: usize = 638;

/// The preamble size.
pub const PREAMBLE_SIZE: u16 = 0x0010;

/// The post-amble size.
pub const POSTAMBLE_SIZE: u16 = 0x0000;

/// The vector of the root layer: data.
pub const VECTOR_ROOT_E131_DATA: u32 = 0x0000_0004;

/// The vector of the framing layer: data packet.
pub const VECTOR_E131_DATA_PACKET: u32 = 0x0000_0002;

/// The vector of the DMP layer: set property.
pub const VECTOR_DMP_SET_PROPERTY: u8 = 0x02;

/// Address type and data type of the DMP layer.
pub const DMP_ADDRESS_DATA_TYPE: u8 = 0xa1;

/// First property address of the DMP layer.
pub const DMP_FIRST_PROPERTY_ADDR: u16 = 0x0000;

/// Address increment of the DMP layer.
pub const DMP_ADDRESS_INCREMENT: u16 = 0x0001;

/// The null start code.
pub const DMX_START_CODE: u8 = 0x00;

/// The flag bits above every length.
pub const PDU_FLAGS: u16 = 0x7000;

/// The length of the source name field.
pub const SOURCE_NAME_LEN: usize = 64;

/// Where the flags and length of the root layer stand.
pub const ROOT_FLAGS_LEN_OFFSET: usize = 16;

/// Where the flags and length of the framing layer stand.
pub const FRAMING_FLAGS_LEN_OFFSET: usize = 38;

/// Where the flags and length of the DMP layer stand.
pub const DMP_FLAGS_LEN_OFFSET: usize = 115;

/// Why a packet cannot be encoded.
#[derive(Clone, Copy, Debug, Eq, PartialEq, Structural)]
pub enum PackError {
    /// The universe is not in `1..=63_999`.
    InvalidUniverse(u16),
    /// The priority is above 200.
    InvalidPriority(u8),
    /// There are more than 512 slots.
    TooManySlots(usize),
}

/// The text of an error.
pub open spec fn error_text(error: PackError) -> Seq<char> {
    match error {
        PackError::InvalidUniverse(universe) => "invalid universe "@ + crate::text::decimal(
            universe as nat,
        ) + "; must be in 1..=63_999"@,
        PackError::InvalidPriority(priority) => "invalid priority "@ + crate::text::decimal(
            priority as nat,
        ) + "; must be in 0..=200"@,
        PackError::TooManySlots(count) => "too many slots: "@ + crate::text::decimal(count as nat)
            + "; max is 512"@,
    }
}

impl PackError {
    /// The text of the error.
    pub fn message(&self) -> (result: String)
        ensures
            result@ == error_text(*self),
    {
        let mut out = String::new();
        match *self {
            PackError::InvalidUniverse(universe) => {
                out.append("invalid universe ");
                push_decimal(&mut out, universe as u64);
                out.append("; must be in 1..=63_999");
            },
            PackError::InvalidPriority(priority) => {
                out.append("invalid priority ");
                push_decimal(&mut out, priority as u64);
                out.append("; must be in 0..=200");
            },
            PackError::TooManySlots(count) => {
                out.append("too many slots: ");
                push_decimal(&mut out, count as u64);
                out.append("; max is 512");
            },
        }
        assert(out@ =~= error_text(*self));
        out
    }
}

/// The flags and length field of a layer of `length` bytes.
pub open spec fn flags_len(length: int) -> Seq<u8> {
    crate::buffer::be16(PDU_FLAGS + length % 0x1000)
}

/// What stands before the root layer's flags and length.
pub open spec fn preamble() -> Seq<u8> {
    crate::buffer::be16(PREAMBLE_SIZE as int) + crate::buffer::be16(POSTAMBLE_SIZE as int)
        + ACN_PACKET_IDENTIFIER@
}

/// The root layer between its flags and length and the framing layer.
pub open spec fn root_layer(cid: Seq<u8>) -> Seq<u8> {
    crate::buffer::be32(VECTOR_ROOT_E131_DATA as int) + cid
}

/// The framing layer between its flags and length and the DMP layer.
pub open spec fn framing_layer(name: Seq<u8>, priority: u8, sequence: u8, universe: u16) -> Seq<u8> {
    crate::buffer::be32(VECTOR_E131_DATA_PACKET as int) + name + seq![priority]
        + crate::buffer::be16(0) + seq![sequence, 0] + crate::buffer::be16(universe as int)
}

/// The DMP layer after its flags and length.
pub open spec fn dmp_layer(slots: Seq<u8>) -> Seq<u8> {
    seq![VECTOR_DMP_SET_PROPERTY, DMP_ADDRESS_DATA_TYPE] + crate::buffer::be16(
        DMP_FIRST_PROPERTY_ADDR as int,
    ) + crate::buffer::be16(DMP_ADDRESS_INCREMENT as int) + crate::buffer::be16(
        1 + slots.len() as int,
    ) + seq![DMX_START_CODE] + slots
}

/// The data packet of a source for one universe.
#[verifier::opaque]
pub open spec fn data_packet(
    cid: Seq<u8>,
    name: Seq<u8>,
    universe: u16,
    sequence: u8,
    priority: u8,
    slots: Seq<u8>,
) -> Seq<u8> {
    let total = 126 + slots.len();
    preamble() + flags_len(total - ROOT_FLAGS_LEN_OFFSET) + root_layer(cid) + flags_len(
        total - FRAMING_FLAGS_LEN_OFFSET,
    ) + framing_layer(name, priority, sequence, universe) + flags_len(total - DMP_FLAGS_LEN_OFFSET)
        + dmp_layer(slots)
}

/// The source name field: the first 63 bytes of the name, then zero bytes.
pub open spec fn name_field(name: Seq<u8>) -> Seq<u8> {
    Seq::new(
        SOURCE_NAME_LEN as nat,
        |i: int|
            if i < SOURCE_NAME_LEN - 1 && i < name.len() {
                name[i]
            } else {
                0
            },
    )
}

/// Whether a universe number is legal.
pub open spec fn legal_universe(universe: u16) -> bool {
    1 <= universe <= MAX_UNIVERSE
}

/// What encoding gives: a packet, or the first thing that is out of range.
pub open spec fn encoding(
    cid: Seq<u8>,
    name: Seq<u8>,
    universe: u16,
    sequence: u8,
    priority: u8,
    slots: Seq<u8>,
) -> Result<Seq<u8>, PackError> {
    if !legal_universe(universe) {
        Err(PackError::InvalidUniverse(universe))
    } else if priority > MAX_PRIORITY {
        Err(PackError::InvalidPriority(priority))
    } else if slots.len() > MAX_SLOTS_PER_UNIVERSE {
        Err(PackError::TooManySlots(slots.len() as usize))
    } else {
        Ok(data_packet(cid, name, universe, sequence, priority, slots))
    }
}

/// Whether a number is a legal universe.
pub fn universe_is_legal(universe: u16) -> (result: bool)
    ensures
        result == legal_universe(universe),
{
    1 <= universe && universe <= MAX_UNIVERSE
}

/// The IPv4 multicast address of a universe: `239.255.<high>.<low>`.
pub fn multicast_v4(universe: u16) -> (result: Option<[u8; 4]>)
    ensures
        match result {
            Some(octets) => legal_universe(universe) && octets@ == multicast_octets(universe),
            None => !legal_universe(universe),
        },
{
    if !universe_is_legal(universe) {
        return None;
    }
    let octets: [u8; 4] = [239, 255, (universe / 0x100) as u8, (universe % 0x100) as u8];
    assert(octets@ =~= multicast_octets(universe));
    Some(octets)
}

/// Writes the flags and length of a layer.
fn write_flags_len(buffer: &mut BytesMut, offset: usize, length: u16)
    requires
        offset + 1 < crate::buffer::buffer_bytes(*old(buffer)).len() <= crate::buffer::BUFFER_LIMIT,
    ensures
        crate::buffer::buffer_bytes(*final(buffer)) == crate::buffer::buffer_bytes(
            *old(buffer),
        ).update(offset as int, flags_len(length as int)[0]).update(
            offset + 1,
            flags_len(length as int)[1],
        ),
{
    let value: u16 = PDU_FLAGS | (length & 0x0fff);
    assert(0x7000u16 | (length & 0x0fff) == 0x7000 + length % 0x1000) by (bit_vector);
    overwrite(buffer, offset, (value / 0x100) as u8);
    overwrite(buffer, offset + 1, (value % 0x100) as u8);
}

/// Encodes the packets of one source.
///
/// The identifier and the name of the source are the same in all packets. The
/// sequence numbers are the caller's.
#[derive(Debug)]
pub struct PacketBuilder {
    cid: Cid,
    source_name: [u8; 64],
    scratch: BytesMut,
}

impl PacketBuilder {
    /// The identifier of the source.
    pub closed spec fn cid_bytes(&self) -> Seq<u8> {
        self.cid@
    }

    /// The source name field.
    pub closed spec fn name_bytes(&self) -> Seq<u8> {
        self.source_name@
    }

    /// A builder with a fresh random identifier.
    pub fn new(source_name: &str) -> (result: PacketBuilder)
        ensures
            crate::cid::is_random_uuid(result.cid_bytes()),
            result.name_bytes() == name_field(vstd::utf8::encode_utf8(source_name@)),
    {
        PacketBuilder::with_cid(Cid::random(), source_name)
    }

    /// A builder with a given identifier.
    pub fn with_cid(cid: Cid, source_name: &str) -> (result: PacketBuilder)
        ensures
            result.cid_bytes() == cid@,
            result.name_bytes() == name_field(vstd::utf8::encode_utf8(source_name@)),
    {
        let bytes = source_name.as_bytes();
        let mut name: [u8; 64] = [0; 64];
        let mut i: usize = 0;
        while i < SOURCE_NAME_LEN - 1 && i < bytes.len()
            invariant
                i <= SOURCE_NAME_LEN - 1,
                i <= bytes@.len(),
                name@.len() == SOURCE_NAME_LEN,
                forall|j: int| 0 <= j < i ==> name@[j] == bytes@[j],
                forall|j: int| i <= j < SOURCE_NAME_LEN ==> name@[j] == 0,
            decreases SOURCE_NAME_LEN - i,
        {
            name[i] = bytes[i];
            i = i + 1;
        }
        assert(name@ =~= name_field(bytes@));
        PacketBuilder { cid, source_name: name, scratch: with_capacity(MAX_DATA_PACKET_LEN) }
    }

    /// The identifier of the source.
    pub fn cid(&self) -> (result: Cid)
        ensures
            result@ == self.cid_bytes(),
    {
        self.cid
    }

    /// Encodes one data packet.
    pub fn encode(
        &mut self,
        universe: u16,
        sequence: u8,
        priority: u8,
        slots: &[u8],
    ) -> (result: Result<Vec<u8>, PackError>)
        ensures
            match result {
                Ok(packet) => encoding(
                    old(self).cid_bytes(),
                    old(self).name_bytes(),
                    universe,
                    sequence,
                    priority,
                    slots@,
                ) == Ok::<Seq<u8>, PackError>(packet@),
                Err(error) => encoding(
                    old(self).cid_bytes(),
                    old(self).name_bytes(),
                    universe,
                    sequence,
                    priority,
                    slots@,
                ) == Err::<Seq<u8>, PackError>(error),
            },
            final(self).cid_bytes() == old(self).cid_bytes(),
            final(self).name_bytes() == old(self).name_bytes(),
    {
        if !universe_is_legal(universe) {
            return Err(PackError::InvalidUniverse(universe));
        }
        if priority > MAX_PRIORITY {
            return Err(PackError::InvalidPriority(priority));
        }
        if slots.len() > MAX_SLOTS_PER_UNIVERSE {
            return Err(PackError::TooManySlots(slots.len()));
        }
        let ghost gap = crate::buffer::be16(0);
        let ghost root = root_layer(self.cid@);
        let ghost framing = framing_layer(self.source_name@, priority, sequence, universe);
        let ghost dmp = dmp_layer(slots@);
        clear(&mut self.scratch);

        // Root layer
        put_u16(&mut self.scratch, PREAMBLE_SIZE);
        put_u16(&mut self.scratch, POSTAMBLE_SIZE);
        put_slice(&mut self.scratch, &ACN_PACKET_IDENTIFIER);
        put_u16(&mut self.scratch, 0);
        put_u32(&mut self.scratch, VECTOR_ROOT_E131_DATA);
        put_slice(&mut self.scratch, self.cid.as_bytes());
        let ghost filled = preamble() + gap + root;
        assert(crate::buffer::buffer_bytes(self.scratch) =~= filled);

        // Framing layer
        put_u16(&mut self.scratch, 0);
        put_u32(&mut self.scratch, VECTOR_E131_DATA_PACKET);
        put_slice(&mut self.scratch, &self.source_name);
        put_u8(&mut self.scratch, priority);
        put_u16(&mut self.scratch, 0);
        put_u8(&mut self.scratch, sequence);
        put_u8(&mut self.scratch, 0);
        put_u16(&mut self.scratch, universe);
        assert(crate::buffer::buffer_bytes(self.scratch) =~= filled + gap + framing);

        // DMP layer
        put_u16(&mut self.scratch, 0);
        put_u8(&mut self.scratch, VECTOR_DMP_SET_PROPERTY);
        put_u8(&mut self.scratch, DMP_ADDRESS_DATA_TYPE);
        put_u16(&mut self.scratch, DMP_FIRST_PROPERTY_ADDR);
        put_u16(&mut self.scratch, DMP_ADDRESS_INCREMENT);
        put_u16(&mut self.scratch, 1 + slots.len() as u16);
        put_u8(&mut self.scratch, DMX_START_CODE);
        put_slice(&mut self.scratch, slots);
        assert(crate::buffer::buffer_bytes(self.scratch) =~= filled + gap + framing + gap + dmp);

        // The lengths, each from its own field to the end
        let total: usize = len(&self.scratch);
        write_flags_len(
            &mut self.scratch,
            ROOT_FLAGS_LEN_OFFSET,
            (total - ROOT_FLAGS_LEN_OFFSET) as u16,
        );
        write_flags_len(
            &mut self.scratch,
            FRAMING_FLAGS_LEN_OFFSET,
            (total - FRAMING_FLAGS_LEN_OFFSET) as u16,
        );
        write_flags_len(
            &mut self.scratch,
            DMP_FLAGS_LEN_OFFSET,
            (total - DMP_FLAGS_LEN_OFFSET) as u16,
        );
        proof {
            reveal(data_packet);
            let packet = data_packet(
                self.cid@,
                self.source_name@,
                universe,
                sequence,
                priority,
                slots@,
            );
            assert(crate::buffer::buffer_bytes(self.scratch) =~= packet);
        }
        Ok(to_vec(&self.scratch))
    }
}

/// The identifier of every builder has 16 bytes and its source name field has
/// 64, so what is said of packets of such a source holds of all its packets.
pub proof fn lemma_builder_lengths(builder: PacketBuilder)
    ensures
        builder.cid_bytes().len() == 16,
        builder.name_bytes().len() == SOURCE_NAME_LEN,
{
    crate::cid::lemma_cid_length(builder.cid);
}

/// The multicast address of a universe.
pub open spec fn multicast_octets(universe: u16) -> Seq<u8> {
    seq![239u8, 255u8] + crate::buffer::be16(universe as int)
}

/// Different universes have different multicast addresses.
pub proof fn lemma_multicast_addresses_differ(universe: u16, other: u16)
    requires
        universe != other,
    ensures
        multicast_octets(universe) != multicast_octets(other),
{
    let (a, b) = (multicast_octets(universe), multicast_octets(other));
    if a == b {
        assert(a[2] == b[2] && a[3] == b[3]);
    }
}

/// A packet is 126 bytes and its slots, at most 638 in all.
pub proof fn lemma_packet_length(
    cid: Seq<u8>,
    name: Seq<u8>,
    universe: u16,
    sequence: u8,
    priority: u8,
    slots: Seq<u8>,
)
    requires
        cid.len() == 16,
        name.len() == SOURCE_NAME_LEN,
        slots.len() <= MAX_SLOTS_PER_UNIVERSE,
    ensures
        data_packet(cid, name, universe, sequence, priority, slots).len() == 126 + slots.len(),
        data_packet(cid, name, universe, sequence, priority, slots).len() <= MAX_DATA_PACKET_LEN,
{
    reveal(data_packet);
}

/// Every field stands at its place, whatever the others hold.
pub proof fn lemma_packet_layout(
    cid: Seq<u8>,
    name: Seq<u8>,
    universe: u16,
    sequence: u8,
    priority: u8,
    slots: Seq<u8>,
)
    requires
        cid.len() == 16,
        name.len() == SOURCE_NAME_LEN,
    ensures
        ({
            let packet = data_packet(cid, name, universe, sequence, priority, slots);
            &&& packet.subrange(0, 16) == preamble()
            &&& packet.subrange(18, 22) == crate::buffer::be32(VECTOR_ROOT_E131_DATA as int)
            &&& packet.subrange(22, 38) == cid
            &&& packet.subrange(40, 44) == crate::buffer::be32(VECTOR_E131_DATA_PACKET as int)
            &&& packet.subrange(44, 108) == name
            &&& packet[108] == priority
            &&& packet.subrange(109, 111) == crate::buffer::be16(0)
            &&& packet[111] == sequence
            &&& packet[112] == 0
            &&& packet.subrange(113, 115) == crate::buffer::be16(universe as int)
            &&& packet[117] == VECTOR_DMP_SET_PROPERTY
            &&& packet[118] == DMP_ADDRESS_DATA_TYPE
            &&& packet.subrange(119, 121) == crate::buffer::be16(DMP_FIRST_PROPERTY_ADDR as int)
            &&& packet.subrange(121, 123) == crate::buffer::be16(DMP_ADDRESS_INCREMENT as int)
            &&& packet.subrange(123, 125) == crate::buffer::be16(1 + slots.len() as int)
            &&& packet[125] == DMX_START_CODE
            &&& packet.subrange(126, packet.len() as int) == slots
        }),
{
    reveal(data_packet);
    let packet = data_packet(cid, name, universe, sequence, priority, slots);
    assert(packet.subrange(0, 16) =~= preamble());
    assert(packet.subrange(22, 38) =~= cid);
    assert(packet.subrange(44, 108) =~= name);
    assert(packet.subrange(126, packet.len() as int) =~= slots);
}

/// The length of each layer is counted from its own field to the end of the
/// packet, below the flag bits.
pub proof fn lemma_layer_lengths(
    cid: Seq<u8>,
    name: Seq<u8>,
    universe: u16,
    sequence: u8,
    priority: u8,
    slots: Seq<u8>,
)
    requires
        cid.len() == 16,
        name.len() == SOURCE_NAME_LEN,
        slots.len() <= MAX_SLOTS_PER_UNIVERSE,
    ensures
        ({
            let packet = data_packet(cid, name, universe, sequence, priority, slots);
            &&& packet[16] * 0x100 + packet[17] == PDU_FLAGS + (packet.len() - 16)
            &&& packet[38] * 0x100 + packet[39] == PDU_FLAGS + (packet.len() - 38)
            &&& packet[115] * 0x100 + packet[116] == PDU_FLAGS + (packet.len() - 115)
        }),
{
    reveal(data_packet);
}

/// A packet tells what it was made from.
pub proof fn lemma_packet_determines_its_fields(
    cid: Seq<u8>,
    name: Seq<u8>,
    universe: u16,
    sequence: u8,
    priority: u8,
    slots: Seq<u8>,
    other_cid: Seq<u8>,
    other_name: Seq<u8>,
    other_universe: u16,
    other_sequence: u8,
    other_priority: u8,
    other_slots: Seq<u8>,
)
    requires
        cid.len() == 16 && other_cid.len() == 16,
        name.len() == SOURCE_NAME_LEN && other_name.len() == SOURCE_NAME_LEN,
        data_packet(cid, name, universe, sequence, priority, slots) == data_packet(
            other_cid,
            other_name,
            other_universe,
            other_sequence,
            other_priority,
            other_slots,
        ),
    ensures
        cid == other_cid,
        name == other_name,
        universe == other_universe,
        sequence == other_sequence,
        priority == other_priority,
        slots == other_slots,
{
    lemma_packet_layout(cid, name, universe, sequence, priority, slots);
    lemma_packet_layout(
        other_cid,
        other_name,
        other_universe,
        other_sequence,
        other_priority,
        other_slots,
    );
    let high = crate::buffer::be16(universe as int);
    let other_high = crate::buffer::be16(other_universe as int);
    assert(high[0] == other_high[0] && high[1] == other_high[1]);
}

/// Two packets that differ in their sequence number alone differ in one byte.
pub proof fn lemma_sequence_is_one_byte(
    cid: Seq<u8>,
    name: Seq<u8>,
    universe: u16,
    sequence: u8,
    other_sequence: u8,
    priority: u8,
    slots: Seq<u8>,
)
    requires
        cid.len() == 16,
        name.len() == SOURCE_NAME_LEN,
    ensures
        data_packet(cid, name, universe, other_sequence, priority, slots) == data_packet(
            cid,
            name,
            universe,
            sequence,
            priority,
            slots,
        ).update(111, other_sequence),
{
    reveal(data_packet);
    assert(data_packet(cid, name, universe, other_sequence, priority, slots) =~= data_packet(
        cid,
        name,
        universe,
        sequence,
        priority,
        slots,
    ).update(111, other_sequence));
}

/// The source name field always ends in a zero byte, and a name of at most 63
/// bytes stands in it whole.
pub proof fn lemma_name_is_terminated(name: Seq<u8>)
    ensures
        name_field(name).len() == SOURCE_NAME_LEN,
        name_field(name)[63] == 0,
        name.len() <= 63 ==> name_field(name).take(name.len() as int) == name,
        name.len() > 63 ==> name_field(name).take(63) == name.take(63),
{
    if name.len() <= 63 {
        assert(name_field(name).take(name.len() as int) =~= name);
    } else {
        assert(name_field(name).take(63) =~= name.take(63));
    }
}

/// Every byte of a packet, for all that it can be made from.
pub proof fn lemma_packet_bytes(
    cid: Seq<u8>,
    name: Seq<u8>,
    universe: u16,
    sequence: u8,
    priority: u8,
    slots: Seq<u8>,
)
    requires
        cid.len() == 16,
        name.len() == 64,
        slots.len() <= 512,
    ensures
        ({
            let packet = data_packet(cid, name, universe, sequence, priority, slots);
            let total = 126 + slots.len();
            &&& packet.len() == total
            &&& packet[0] == 0 && packet[1] == 0x10 && packet[2] == 0 && packet[3] == 0
            &&& packet[4] == 0x41 && packet[5] == 0x53 && packet[6] == 0x43 && packet[7] == 0x2d
            &&& packet[8] == 0x45 && packet[9] == 0x31 && packet[10] == 0x2e && packet[11] == 0x31
            &&& packet[12] == 0x37 && packet[13] == 0 && packet[14] == 0 && packet[15] == 0
            &&& packet[16] * 0x100 + packet[17] == 0x7000 + total - 16
            &&& packet[18] == 0 && packet[19] == 0 && packet[20] == 0 && packet[21] == 4
            &&& forall|i: int| 0 <= i < 16 ==> #[trigger] packet[22 + i] == cid[i]
            &&& packet[38] * 0x100 + packet[39] == 0x7000 + total - 38
            &&& packet[40] == 0 && packet[41] == 0 && packet[42] == 0 && packet[43] == 2
            &&& forall|i: int| 0 <= i < 64 ==> #[trigger] packet[44 + i] == name[i]
            &&& packet[108] == priority
            &&& packet[109] == 0 && packet[110] == 0
            &&& packet[111] == sequence
            &&& packet[112] == 0
            &&& packet[113] * 0x100 + packet[114] == universe
            &&& packet[115] * 0x100 + packet[116] == 0x7000 + total - 115
            &&& packet[117] == 0x02 && packet[118] == 0xa1
            &&& packet[119] == 0 && packet[120] == 0
            &&& packet[121] == 0 && packet[122] == 1
            &&& packet[123] * 0x100 + packet[124] == 1 + slots.len()
            &&& packet[125] == 0
            &&& forall|i: int| 0 <= i < slots.len() ==> #[trigger] packet[126 + i] == slots[i]
        }),
{
    reveal(data_packet);
}

/// A packet comes of every legal universe, priority and number of slots, and of
/// nothing else; the first that is out of range is reported with its value.
pub proof fn lemma_what_is_encoded(
    cid: Seq<u8>,
    name: Seq<u8>,
    universe: u16,
    sequence: u8,
    priority: u8,
    slots: Seq<u8>,
)
    requires
        slots.len() <= usize::MAX,
    ensures
        ({
            let result = encoding(cid, name, universe, sequence, priority, slots);
            &&& result is Ok <==> 1 <= universe <= 63_999 && priority <= 200 && slots.len() <= 512
            &&& result matches Ok(packet) ==> packet == data_packet(
                cid,
                name,
                universe,
                sequence,
                priority,
                slots,
            )
            &&& universe == 0 || universe > 63_999 ==> result == Err::<Seq<u8>, PackError>(
                PackError::InvalidUniverse(universe),
            )
            &&& 1 <= universe <= 63_999 && priority > 200 ==> result == Err::<Seq<u8>, PackError>(
                PackError::InvalidPriority(priority),
            )
            &&& 1 <= universe <= 63_999 && priority <= 200 && slots.len() > 512 ==> (result matches Err(
                PackError::TooManySlots(count),
            ) && count == slots.len())
            &&& legal_universe(universe) <==> 1 <= universe <= 63_999
        }),
{
}

/// After a name, and after its first 63 bytes, the source name field is zero.
pub proof fn lemma_name_field_bytes(name: Seq<u8>, i: int)
    requires
        0 <= i < 64,
    ensures
        name_field(name).len() == 64,
        i < 63 && i < name.len() ==> name_field(name)[i] == name[i],
        i == 63 || i >= name.len() ==> name_field(name)[i] == 0,
{
}

/// The multicast address of a universe is 239.255 and the two bytes of its
/// number.
pub proof fn lemma_multicast_octets(universe: u16)
    ensures
        multicast_octets(universe).len() == 4,
        multicast_octets(universe)[0] == 239,
        multicast_octets(universe)[1] == 255,
        multicast_octets(universe)[2] * 0x100 + multicast_octets(universe)[3] == universe,
{
}

/// The texts of the errors, with the value that is out of range.
pub proof fn lemma_error_texts(universe: u16, priority: u8, count: usize)
    ensures
        error_text(PackError::InvalidUniverse(universe)) == "invalid universe "@
            + crate::text::decimal(universe as nat) + "; must be in 1..=63_999"@,
        error_text(PackError::InvalidPriority(priority)) == "invalid priority "@
            + crate::text::decimal(priority as nat) + "; must be in 0..=200"@,
        error_text(PackError::TooManySlots(count)) == "too many slots: "@ + crate::text::decimal(
            count as nat,
        ) + "; max is 512"@,
{
}

} // verus!
