//! Decoded OSC packets.
//!
//! The wire format is `rosc`'s. A packet that it decoded is taken apart here
//! into plain values, of which the rest of the library reads.

use rosc::OscType;
use vstd::prelude::*;

use crate::binary32::{Double, Single};

verus! {

/// A time tag: seconds since 1900, and the fraction of a second in units of
/// 2^-32.
#[derive(Clone, Copy, Debug, Eq, PartialEq, Structural)]
pub struct TimeTag {
    /// Whole seconds.
    pub seconds: u32,
    /// The fraction.
    pub fractional: u32,
}

/// An OSC argument.
#[derive(Debug)]
pub enum Arg {
    /// A 32-bit integer.
    Int(i32),
    /// A single-precision number.
    Float(Single),
    /// A string.
    String(String),
    /// A run of bytes.
    Blob(Vec<u8>),
    /// A time tag.
    Time(TimeTag),
    /// A 64-bit integer.
    Long(i64),
    /// A double-precision number.
    Double(Double),
    /// A character.
    Char(char),
    /// A color: red, green, blue and alpha.
    Color(u8, u8, u8, u8),
    /// A MIDI message: port, status and two data bytes.
    Midi(u8, u8, u8, u8),
    /// A truth value.
    Bool(bool),
    /// An array of arguments.
    Array(Vec<Arg>),
    /// Nothing.
    Nil,
    /// The infinitum.
    Inf,
}

/// An OSC message: an address and its arguments.
#[derive(Debug)]
pub struct Message {
    /// The address.
    pub addr: String,
    /// The arguments.
    pub args: Vec<Arg>,
}

/// An OSC packet: a message, or a bundle of packets.
#[derive(Debug)]
pub enum Packet {
    /// A message.
    Message(Message),
    /// A bundle: its time tag and its packets.
    Bundle(TimeTag, Vec<Packet>),
}

/// What an argument holds.
pub enum ArgView {
    /// A 32-bit integer.
    Int(i32),
    /// A single-precision number.
    Float(Single),
    /// A string.
    String(Seq<char>),
    /// A run of bytes.
    Blob(Seq<u8>),
    /// A time tag.
    Time(TimeTag),
    /// A 64-bit integer.
    Long(i64),
    /// A double-precision number.
    Double(Double),
    /// A character.
    Char(char),
    /// A color.
    Color(u8, u8, u8, u8),
    /// A MIDI message: port, status and two data bytes.
    Midi(u8, u8, u8, u8),
    /// A truth value.
    Bool(bool),
    /// An array of arguments.
    Array(Seq<ArgView>),
    /// Nothing.
    Nil,
    /// The infinitum.
    Inf,
}

/// What a message holds.
pub struct MessageView {
    /// The address.
    pub addr: Seq<char>,
    /// The arguments.
    pub args: Seq<ArgView>,
}

/// What a packet holds.
pub enum PacketView {
    /// A message.
    Message(MessageView),
    /// A bundle: its time tag and its packets.
    Bundle(TimeTag, Seq<PacketView>),
}

impl View for Arg {
    type V = ArgView;

    open spec fn view(&self) -> ArgView {
        arg_view(*self)
    }
}

/// What an argument holds.
pub open spec fn arg_view(arg: Arg) -> ArgView
    decreases arg, 0nat,
{
    match arg {
        Arg::Int(v) => ArgView::Int(v),
        Arg::Float(v) => ArgView::Float(v),
        Arg::String(v) => ArgView::String(v@),
        Arg::Blob(v) => ArgView::Blob(v@),
        Arg::Time(v) => ArgView::Time(v),
        Arg::Long(v) => ArgView::Long(v),
        Arg::Double(v) => ArgView::Double(v),
        Arg::Char(v) => ArgView::Char(v),
        Arg::Color(r, g, b, a) => ArgView::Color(r, g, b, a),
        Arg::Midi(port, status, first, second) => ArgView::Midi(port, status, first, second),
        Arg::Bool(v) => ArgView::Bool(v),
        Arg::Array(items) => ArgView::Array(elements_view(items, items.len() as nat)),
        Arg::Nil => ArgView::Nil,
        Arg::Inf => ArgView::Inf,
    }
}

/// What the first `n` elements of an array hold.
pub open spec fn elements_view(items: Vec<Arg>, n: nat) -> Seq<ArgView>
    decreases items, n,
{
    if n == 0 || n > items.len() {
        Seq::empty()
    } else {
        elements_view(items, (n - 1) as nat).push(arg_view(items[n - 1]))
    }
}

/// The view of the first `n` elements of an array is that of each of them.
proof fn lemma_elements_view(items: Vec<Arg>, n: nat)
    requires
        n <= items.len(),
    ensures
        elements_view(items, n).len() == n,
        forall|i: int| 0 <= i < n ==> #[trigger] elements_view(items, n)[i] == items@[i]@,
    decreases n,
{
    if n > 0 {
        lemma_elements_view(items, (n - 1) as nat);
    }
}

/// An array holds what the list of its elements holds.
pub proof fn lemma_array_view(items: Vec<Arg>)
    ensures
        Arg::Array(items)@ == ArgView::Array(args_view(items@)),
{
    lemma_elements_view(items, items.len() as nat);
    assert(elements_view(items, items.len() as nat) =~= args_view(items@));
}

/// What a list of arguments holds.
pub open spec fn args_view(args: Seq<Arg>) -> Seq<ArgView> {
    Seq::new(args.len(), |i: int| args[i]@)
}

impl View for Message {
    type V = MessageView;

    open spec fn view(&self) -> MessageView {
        MessageView { addr: self.addr@, args: args_view(self.args@) }
    }
}

impl View for Packet {
    type V = PacketView;

    open spec fn view(&self) -> PacketView {
        packet_view(*self)
    }
}

/// What a packet holds.
pub open spec fn packet_view(packet: Packet) -> PacketView
    decreases packet, 0nat,
{
    match packet {
        Packet::Message(message) => PacketView::Message(message@),
        Packet::Bundle(time, items) => PacketView::Bundle(
            time,
            items_view(items, items.len() as nat),
        ),
    }
}

/// What the first `n` packets of a list hold.
pub open spec fn items_view(items: Vec<Packet>, n: nat) -> Seq<PacketView>
    decreases items, n,
{
    if n == 0 || n > items.len() {
        Seq::empty()
    } else {
        items_view(items, (n - 1) as nat).push(packet_view(items[n - 1]))
    }
}

/// The messages of a packet, in order.
pub open spec fn messages(packet: PacketView) -> Seq<MessageView>
    decreases packet, 0nat,
{
    match packet {
        PacketView::Message(message) => seq![message],
        PacketView::Bundle(_, items) => messages_of(items, items.len()),
    }
}

/// The messages of the first `n` packets of a list, in order.
pub open spec fn messages_of(items: Seq<PacketView>, n: nat) -> Seq<MessageView>
    decreases items, n,
{
    if n == 0 || n > items.len() {
        Seq::empty()
    } else {
        messages_of(items, (n - 1) as nat) + messages(items[n - 1])
    }
}

/// The messages of the first packets of a list do not depend on those that
/// follow.
proof fn lemma_messages_of_prefix(first: Seq<PacketView>, second: Seq<PacketView>, n: nat)
    requires
        n <= first.len(),
    ensures
        messages_of(first + second, n) == messages_of(first, n),
    decreases n,
{
    if n > 0 {
        lemma_messages_of_prefix(first, second, (n - 1) as nat);
    }
}

/// The messages of a list follow those of the list before it.
proof fn lemma_messages_of_suffix(first: Seq<PacketView>, second: Seq<PacketView>, n: nat)
    requires
        n <= second.len(),
    ensures
        messages_of(first + second, first.len() + n) == messages_of(first, first.len())
            + messages_of(second, n),
    decreases n,
{
    if n == 0 {
        lemma_messages_of_prefix(first, second, first.len());
    } else {
        lemma_messages_of_suffix(first, second, (n - 1) as nat);
    }
}

/// The messages of a bundle are those of its first packets, then those of the
/// others.
pub proof fn lemma_bundle_keeps_order(
    time: TimeTag,
    first: Seq<PacketView>,
    second: Seq<PacketView>,
)
    ensures
        messages(PacketView::Bundle(time, first + second)) == messages(
            PacketView::Bundle(time, first),
        ) + messages(PacketView::Bundle(time, second)),
{
    lemma_messages_of_suffix(first, second, second.len());
}

/// A bundle of one packet holds the messages of that packet: neither nesting
/// nor the time tag matters.
pub proof fn lemma_nesting_does_not_matter(time: TimeTag, packet: PacketView)
    ensures
        messages(PacketView::Bundle(time, seq![packet])) == messages(packet),
{
    let items = seq![packet];
    assert(messages_of(items, 0) =~= Seq::empty());
}

/// `rosc::OscPacket`, a decoded packet.
#[verifier::external_type_specification]
#[verifier::external_body]
pub struct ExOscPacket(rosc::OscPacket);

/// `rosc::OscType`, a decoded argument.
#[verifier::external_type_specification]
#[verifier::external_body]
pub struct ExOscType(rosc::OscType);

/// `rosc::OscError`, the reason why bytes are no packet.
#[verifier::external_type_specification]
#[verifier::external_body]
pub struct ExOscError(rosc::OscError);

/// What a decoded packet holds.
pub uninterp spec fn packet_contents(packet: rosc::OscPacket) -> PacketView;

/// What a decoded argument holds.
pub uninterp spec fn arg_contents(arg: rosc::OscType) -> ArgView;

/// What decoding bytes gives: a packet, or the reason why they are none.
pub uninterp spec fn decoding(bytes: Seq<u8>) -> Result<PacketView, rosc::OscError>;

/// `rosc::decoder::decode_udp`, without the bytes that follow the packet:
/// whether bytes are a packet, what it holds, and the error if they are none,
/// depend on the bytes alone. The decoder calls itself for a bundle in a
/// bundle, so its stack grows with the nesting.
#[verifier::external_body]
fn decode_udp(bytes: &[u8]) -> (result: Result<rosc::OscPacket, rosc::OscError>)
    ensures
        match result {
            Ok(packet) => decoding(bytes@) == Ok::<PacketView, rosc::OscError>(
                packet_contents(packet),
            ),
            Err(error) => decoding(bytes@) == Err::<PacketView, rosc::OscError>(error),
        },
{
    rosc::decoder::decode_udp(bytes).map(|decoded| decoded.1)
}

/// A decoded packet taken apart.
enum Opened<'a> {
    /// The address and the arguments of a message.
    Message(&'a String, &'a [rosc::OscType]),
    /// The time tag and the packets of a bundle.
    Bundle(TimeTag, &'a [rosc::OscPacket]),
}

/// What decoded arguments hold.
pub open spec fn args_contents(args: Seq<rosc::OscType>) -> Seq<ArgView> {
    Seq::new(args.len(), |i: int| arg_contents(args[i]))
}

/// What decoded packets hold.
pub open spec fn items_contents(items: Seq<rosc::OscPacket>) -> Seq<PacketView> {
    Seq::new(items.len(), |i: int| packet_contents(items[i]))
}

/// The variants of `rosc::OscPacket`: a message with its address and arguments,
/// or a bundle with its time tag and its list of packets.
#[verifier::external_body]
fn open_packet<'a>(packet: &'a rosc::OscPacket) -> (result: Opened<'a>)
    ensures
        match result {
            Opened::Message(addr, args) => packet_contents(*packet) == PacketView::Message(
                (MessageView { addr: addr@, args: args_contents(args@) }),
            ),
            Opened::Bundle(time, items) => packet_contents(*packet) == PacketView::Bundle(
                time,
                items_contents(items@),
            ),
        },
{
    match packet {
        rosc::OscPacket::Message(message) => Opened::Message(&message.addr, &message.args),
        rosc::OscPacket::Bundle(bundle) => {
            let (seconds, fractional) = (bundle.timetag.seconds, bundle.timetag.fractional);
            Opened::Bundle(TimeTag { seconds, fractional }, &bundle.content)
        },
    }
}

/// Whether an argument is one plain value.
pub open spec fn is_scalar(arg: ArgView) -> bool {
    match arg {
        ArgView::Int(_) | ArgView::Float(_) | ArgView::String(_) | ArgView::Long(_)
        | ArgView::Double(_) | ArgView::Char(_) | ArgView::Bool(_) => true,
        _ => false,
    }
}

/// The variants of `rosc::OscType` that hold one plain value. Numbers are
/// taken by their bit patterns.
#[verifier::external_body]
fn open_scalar(arg: &OscType) -> (result: Option<Arg>)
    ensures
        match result {
            Some(opened) => arg_contents(*arg) == opened@,
            None => true,
        },
        result is Some == is_scalar(arg_contents(*arg)),
{
    match arg {
        OscType::Int(v) => Some(Arg::Int(*v)),
        OscType::Float(v) => Some(Arg::Float(Single { bits: v.to_bits() })),
        OscType::String(v) => Some(Arg::String(v.clone())),
        OscType::Long(v) => Some(Arg::Long(*v)),
        OscType::Double(v) => Some(Arg::Double(Double { bits: v.to_bits() })),
        OscType::Char(v) => Some(Arg::Char(*v)),
        OscType::Bool(v) => Some(Arg::Bool(*v)),
        _ => None,
    }
}

/// Whether an argument is made of several plain values.
pub open spec fn is_compound(arg: ArgView) -> bool {
    match arg {
        ArgView::Blob(_) | ArgView::Time(_) | ArgView::Color(_, _, _, _) | ArgView::Midi(
            _,
            _,
            _,
            _,
        ) => true,
        _ => false,
    }
}

/// The variants of `rosc::OscType` that are made of several plain values.
#[verifier::external_body]
fn open_compound(arg: &OscType) -> (result: Option<Arg>)
    ensures
        match result {
            Some(opened) => arg_contents(*arg) == opened@,
            None => true,
        },
        result is Some == is_compound(arg_contents(*arg)),
{
    match arg {
        OscType::Blob(v) => Some(Arg::Blob(v.clone())),
        OscType::Time(v) => {
            Some(Arg::Time(TimeTag { seconds: v.seconds, fractional: v.fractional }))
        },
        OscType::Color(v) => Some(Arg::Color(v.red, v.green, v.blue, v.alpha)),
        OscType::Midi(v) => Some(Arg::Midi(v.port, v.status, v.data1, v.data2)),
        _ => None,
    }
}

/// An argument that holds no plain value, taken apart.
enum OpenedRest<'a> {
    /// The elements of an array.
    Array(&'a [rosc::OscType]),
    /// Nothing.
    Nil,
    /// The infinitum.
    Inf,
    /// Some other argument.
    Other,
}

/// The variants of `rosc::OscType` that hold no plain value: an array with its
/// elements, nothing, and the infinitum.
#[verifier::external_body]
fn open_rest<'a>(arg: &'a OscType) -> (result: OpenedRest<'a>)
    ensures
        match result {
            OpenedRest::Array(items) => arg_contents(*arg) == ArgView::Array(
                args_contents(items@),
            ),
            OpenedRest::Nil => arg_contents(*arg) == ArgView::Nil,
            OpenedRest::Inf => arg_contents(*arg) == ArgView::Inf,
            OpenedRest::Other => is_scalar(arg_contents(*arg)) || is_compound(arg_contents(*arg)),
        },
{
    match arg {
        OscType::Array(v) => OpenedRest::Array(&v.content),
        OscType::Nil => OpenedRest::Nil,
        OscType::Inf => OpenedRest::Inf,
        _ => OpenedRest::Other,
    }
}

/// Takes a decoded argument apart.
fn take_arg(arg: &OscType) -> (result: Arg)
    ensures
        result@ == arg_contents(*arg),
    decreases arg_contents(*arg), 0nat,
{
    if let Some(opened) = open_scalar(arg) {
        return opened;
    }
    if let Some(opened) = open_compound(arg) {
        return opened;
    }
    match open_rest(arg) {
        OpenedRest::Array(decoded_items) => {
            assert(decreases_to!(arg_contents(*arg) => arg_contents(*arg)->Array_0));
            let items = take_args(decoded_items);
            proof {
                lemma_array_view(items);
            }
            Arg::Array(items)
        },
        OpenedRest::Nil => Arg::Nil,
        _ => Arg::Inf,
    }
}

/// Takes decoded arguments apart.
fn take_args(decoded_args: &[OscType]) -> (result: Vec<Arg>)
    ensures
        args_view(result@) == args_contents(decoded_args@),
    decreases args_contents(decoded_args@), 1nat,
{
    let ghost contents = args_contents(decoded_args@);
    let mut args: Vec<Arg> = Vec::new();
    let mut i: usize = 0;
    while i < decoded_args.len()
        invariant
            i <= decoded_args@.len(),
            args@.len() == i,
            contents == args_contents(decoded_args@),
            forall|j: int| 0 <= j < i ==> (#[trigger] args@[j])@ == contents[j],
        decreases decoded_args@.len() - i,
    {
        assert(decreases_to!(contents => contents[i as int]));
        args.push(take_arg(&decoded_args[i]));
        i = i + 1;
    }
    args
}

/// Takes a decoded packet apart.
fn take_packet(packet: &rosc::OscPacket) -> (result: Packet)
    ensures
        result@ == packet_contents(*packet),
    decreases packet_contents(*packet),
{
    match open_packet(packet) {
        Opened::Message(addr, args) => Packet::Message(
            Message { addr: addr.clone(), args: take_args(args) },
        ),
        Opened::Bundle(time, decoded_items) => {
            let ghost contents = items_contents(decoded_items@);
            let mut items: Vec<Packet> = Vec::new();
            let mut i: usize = 0;
            while i < decoded_items.len()
                invariant
                    i <= decoded_items@.len(),
                    items@.len() == i,
                    contents == items_contents(decoded_items@),
                    packet_contents(*packet) == PacketView::Bundle(time, contents),
                    forall|j: int| 0 <= j < i ==> (#[trigger] items@[j])@ == contents[j],
                decreases decoded_items@.len() - i,
            {
                assert(decreases_to!(packet_contents(*packet) => packet_contents(*packet)->Bundle_1));
                assert(decreases_to!(contents => contents[i as int]));
                items.push(take_packet(&decoded_items[i]));
                i = i + 1;
            }
            proof {
                lemma_items_view(items, items.len() as nat);
                assert(items_view(items, items.len() as nat) =~= contents);
            }
            Packet::Bundle(time, items)
        },
    }
}

/// The view of the first `n` packets of a list is that of each of them.
pub proof fn lemma_items_view(items: Vec<Packet>, n: nat)
    requires
        n <= items.len(),
    ensures
        items_view(items, n).len() == n,
        forall|i: int| 0 <= i < n ==> #[trigger] items_view(items, n)[i] == items@[i]@,
    decreases n,
{
    if n > 0 {
        lemma_items_view(items, (n - 1) as nat);
    }
}

/// Decodes a datagram.
pub(crate) fn decode(bytes: &[u8]) -> (result: Result<Packet, rosc::OscError>)
    ensures
        match result {
            Ok(packet) => decoding(bytes@) == Ok::<PacketView, rosc::OscError>(packet@),
            Err(error) => decoding(bytes@) == Err::<PacketView, rosc::OscError>(error),
        },
{
    match decode_udp(bytes) {
        Ok(packet) => Ok(take_packet(&packet)),
        Err(error) => Err(error),
    }
}

/// A message alone is the one message of its packet, and an empty bundle has
/// none.
pub proof fn lemma_smallest_packets(time: TimeTag, message: MessageView)
    ensures
        messages(PacketView::Message(message)) == seq![message],
        messages(PacketView::Bundle(time, Seq::empty())) == Seq::<MessageView>::empty(),
{
}

/// What is seen of an argument is what it holds, kind by kind.
pub proof fn lemma_arguments_are_seen_as_they_are(
    short: i32,
    long: i64,
    single: Single,
    double: Double,
    text: String,
    bytes: Vec<u8>,
    time: TimeTag,
    c: char,
    b: bool,
    q: (u8, u8, u8, u8),
)
    ensures
        Arg::Int(short)@ == ArgView::Int(short),
        Arg::Long(long)@ == ArgView::Long(long),
        Arg::Float(single)@ == ArgView::Float(single),
        Arg::Double(double)@ == ArgView::Double(double),
        Arg::String(text)@ == ArgView::String(text@),
        Arg::Blob(bytes)@ == ArgView::Blob(bytes@),
        Arg::Time(time)@ == ArgView::Time(time),
        Arg::Char(c)@ == ArgView::Char(c),
        Arg::Bool(b)@ == ArgView::Bool(b),
        Arg::Color(q.0, q.1, q.2, q.3)@ == ArgView::Color(q.0, q.1, q.2, q.3),
        Arg::Midi(q.0, q.1, q.2, q.3)@ == ArgView::Midi(q.0, q.1, q.2, q.3),
        Arg::Nil@ == ArgView::Nil,
        Arg::Inf@ == ArgView::Inf,
{
}

/// What is seen of messages and packets is what they hold, item by item and in
/// order.
pub proof fn lemma_packets_are_seen_as_they_are(
    message: Message,
    time: TimeTag,
    items: Vec<Packet>,
    i: int,
)
    ensures
        message@.addr == message.addr@,
        message@.args.len() == message.args@.len(),
        0 <= i < message.args@.len() ==> message@.args[i] == message.args@[i]@,
        Packet::Message(message)@ == PacketView::Message(message@),
        Packet::Bundle(time, items)@ matches PacketView::Bundle(seen_time, seen) && seen_time
            == time && seen.len() == items@.len() && (0 <= i < items@.len() ==> seen[i]
            == items@[i]@),
{
    lemma_items_view(items, items.len() as nat);
}

} // verus!
