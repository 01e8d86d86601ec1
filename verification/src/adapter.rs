//! The E1.31 output adapter.
//!
//! An adapter drives one stream of pixels, split across one or more universes.
//! It decides what to send and in which order; whoever owns the socket sends
//! it and reports back.

use vstd::prelude::*;
use vstd::string::*;

use crate::adapter_core::{AdapterError, Capability};
use crate::binary32::Single;
use crate::cid::Cid;
use crate::packet::{universe_is_legal, PacketBuilder, DEFAULT_PRIORITY, MAX_PRIORITY, SACN_PORT};
use crate::partition::partition_rgb;
use crate::text::push_decimal;
use crate::types::{Period, ResolvedFrame, Rgb, Zone, ZonePayload};

verus! {

/// Microseconds between two frames by default: 44 frames a second.
pub const DEFAULT_NATIVE_RATE: u64 = 22_727;

/// The most universes that pixels are split across.
pub const MAX_UNIVERSES: usize = 64;

/// The address of a host.
#[derive(Clone, Copy, Debug, Eq, PartialEq)]
pub enum Host {
    /// An IPv4 address.
    V4([u8; 4]),
    /// An IPv6 address.
    V6([u8; 16]),
}

/// Collects the configuration of an adapter.
#[derive(Debug)]
pub struct SacnAdapterBuilder {
    name: String,
    target_host: Host,
    target_port: u16,
    universes: Vec<u16>,
    priority: u8,
    native_rate: Period,
    source_name: String,
    cid: Option<Cid>,
    zones: Vec<Zone>,
    capabilities: Vec<Capability>,
}

/// The configuration of an adapter.
pub struct Configuration {
    /// The name of the adapter.
    pub name: Seq<char>,
    /// Where packets go.
    pub target_host: Host,
    /// The port that packets go to.
    pub target_port: u16,
    /// The universes, in order.
    pub universes: Seq<u16>,
    /// The priority of the packets.
    pub priority: u8,
    /// The time between two frames.
    pub native_rate: Period,
    /// The name in the packets.
    pub source_name: Seq<char>,
    /// The identifier in the packets, if it is fixed.
    pub cid: Option<Cid>,
    /// The zones that are driven.
    pub zones: Seq<Zone>,
    /// The capabilities that are advertised.
    pub capabilities: Seq<Capability>,
}

impl View for SacnAdapterBuilder {
    type V = Configuration;

    closed spec fn view(&self) -> Configuration {
        Configuration {
            name: self.name@,
            target_host: self.target_host,
            target_port: self.target_port,
            universes: self.universes@,
            priority: self.priority,
            native_rate: self.native_rate,
            source_name: self.source_name@,
            cid: self.cid,
            zones: self.zones@,
            capabilities: self.capabilities@,
        }
    }
}

impl SacnAdapterBuilder {
    /// The default configuration for a target.
    pub fn new(name: &str, target_host: Host) -> (result: SacnAdapterBuilder)
        ensures
            result@ == (Configuration {
                name: name@,
                target_host,
                target_port: SACN_PORT,
                universes: seq![1u16],
                priority: DEFAULT_PRIORITY,
                native_rate: Period::of_micros(DEFAULT_NATIVE_RATE as int),
                source_name: "audiophore"@,
                cid: None,
                zones: Seq::empty(),
                capabilities: seq![Capability::Rgb, Capability::PixelStrip],
            }),
    {
        let universes: Vec<u16> = vec![1];
        let capabilities = vec![Capability::Rgb, Capability::PixelStrip];
        let result = SacnAdapterBuilder {
            name: name.to_owned(),
            target_host,
            target_port: SACN_PORT,
            universes,
            priority: DEFAULT_PRIORITY,
            native_rate: Period::from_micros(DEFAULT_NATIVE_RATE),
            source_name: "audiophore".to_owned(),
            cid: None,
            zones: Vec::new(),
            capabilities,
        };
        assert(result@.universes =~= seq![1u16]);
        result
    }

    /// Sets the universes.
    pub fn universes(self, universes: Vec<u16>) -> (result: SacnAdapterBuilder)
        ensures
            result@ == (Configuration { universes: universes@, ..self@ }),
    {
        SacnAdapterBuilder { universes, ..self }
    }

    /// Sets the port that packets go to.
    pub fn target_port(self, port: u16) -> (result: SacnAdapterBuilder)
        ensures
            result@ == (Configuration { target_port: port, ..self@ }),
    {
        SacnAdapterBuilder { target_port: port, ..self }
    }

    /// Sets the priority of the packets.
    pub fn priority(self, priority: u8) -> (result: SacnAdapterBuilder)
        ensures
            result@ == (Configuration { priority, ..self@ }),
    {
        SacnAdapterBuilder { priority, ..self }
    }

    /// Sets the time between two frames.
    pub fn native_rate(self, rate: Period) -> (result: SacnAdapterBuilder)
        ensures
            result@ == (Configuration { native_rate: rate, ..self@ }),
    {
        SacnAdapterBuilder { native_rate: rate, ..self }
    }

    /// Sets the name in the packets.
    pub fn source_name(self, name: &str) -> (result: SacnAdapterBuilder)
        ensures
            result@ == (Configuration { source_name: name@, ..self@ }),
    {
        SacnAdapterBuilder { source_name: name.to_owned(), ..self }
    }

    /// Fixes the identifier in the packets. Without this it is random.
    pub fn cid(self, cid: Cid) -> (result: SacnAdapterBuilder)
        ensures
            result@ == (Configuration { cid: Some(cid), ..self@ }),
    {
        SacnAdapterBuilder { cid: Some(cid), ..self }
    }

    /// Sets the zones that are driven.
    pub fn zones(self, zones: Vec<Zone>) -> (result: SacnAdapterBuilder)
        ensures
            result@ == (Configuration { zones: zones@, ..self@ }),
    {
        SacnAdapterBuilder { zones, ..self }
    }

    /// Sets the capabilities that are advertised.
    pub fn capabilities(self, caps: Vec<Capability>) -> (result: SacnAdapterBuilder)
        ensures
            result@ == (Configuration { capabilities: caps@, ..self@ }),
    {
        SacnAdapterBuilder { capabilities: caps, ..self }
    }

    /// Builds the adapter, or says what is wrong with the configuration.
    pub fn build(self) -> (result: Result<SacnAdapter, AdapterError>)
        ensures
            result is Ok == is_acceptable(self@),
            match result {
                Ok(adapter) => {
                    &&& fault(self@) is None
                    &&& adapter.well_formed()
                    &&& adapter@ == (AdapterState {
                        name: self@.name,
                        capabilities: self@.capabilities,
                        zones: self@.zones,
                        native_rate: self@.native_rate,
                        target_host: self@.target_host,
                        target_port: self@.target_port,
                        universes: self@.universes,
                        priority: self@.priority,
                        cid: adapter@.cid,
                        source_name: crate::packet::name_field(
                            vstd::utf8::encode_utf8(self@.source_name),
                        ),
                        open: false,
                        sequence: 0,
                    })
                    &&& match self@.cid {
                        Some(cid) => adapter@.cid == cid@,
                        None => crate::cid::is_random_uuid(adapter@.cid),
                    }
                },
                Err(error) => fault(self@) matches Some(text) && error@
                    == crate::adapter_core::AdapterErrorView::Protocol(text),
            },
    {
        if self.universes.len() == 0 {
            return Err(AdapterError::Protocol("universe list must not be empty".to_owned()));
        }
        if self.universes.len() > MAX_UNIVERSES {
            let mut text = "too many universes (".to_owned();
            push_decimal(&mut text, self.universes.len() as u64);
            text.append("); max is ");
            push_decimal(&mut text, MAX_UNIVERSES as u64);
            return Err(AdapterError::Protocol(text));
        }
        let mut i: usize = 0;
        while i < self.universes.len()
            invariant
                i <= self.universes@.len() <= MAX_UNIVERSES,
                self.universes@.len() > 0,
                forall|j: int|
                    0 <= j < i ==> crate::packet::legal_universe(#[trigger] self.universes@[j]),
            decreases self.universes@.len() - i,
        {
            let universe: u16 = self.universes[i];
            if !universe_is_legal(universe) {
                proof {
                    lemma_first_illegal(self.universes@, i as int);
                }
                let mut text = "universe ".to_owned();
                push_decimal(&mut text, universe as u64);
                text.append(" out of range 1..=63_999");
                return Err(AdapterError::Protocol(text));
            }
            i = i + 1;
        }
        proof {
            lemma_none_illegal(self.universes@);
        }
        if self.priority > MAX_PRIORITY {
            let mut text = "priority ".to_owned();
            push_decimal(&mut text, self.priority as u64);
            text.append(" out of range 0..=200");
            return Err(AdapterError::Protocol(text));
        }
        proof {
            if self.cid is Some {
                crate::cid::lemma_cid_length(self.cid->0);
            }
        }
        let builder = match self.cid {
            Some(cid) => PacketBuilder::with_cid(cid, self.source_name.as_str()),
            None => PacketBuilder::new(self.source_name.as_str()),
        };
        Ok(
            SacnAdapter {
                name: self.name,
                capabilities: self.capabilities,
                zones: self.zones,
                native_rate: self.native_rate,
                target_host: self.target_host,
                target_port: self.target_port,
                universes: self.universes,
                priority: self.priority,
                builder,
                open: false,
                sequence: 0,
            },
        )
    }
}

/// The first universe that is out of range.
pub open spec fn first_illegal(universes: Seq<u16>) -> Option<u16>
    decreases universes.len(),
{
    if universes.len() == 0 {
        None
    } else if !crate::packet::legal_universe(universes[0]) {
        Some(universes[0])
    } else {
        first_illegal(universes.drop_first())
    }
}

/// The universe at `i` is the first that is out of range if those before it
/// are not.
proof fn lemma_first_illegal(universes: Seq<u16>, i: int)
    requires
        0 <= i < universes.len(),
        !crate::packet::legal_universe(universes[i]),
        forall|j: int| 0 <= j < i ==> crate::packet::legal_universe(#[trigger] universes[j]),
    ensures
        first_illegal(universes) == Some(universes[i]),
    decreases i,
{
    if i > 0 {
        lemma_first_illegal(universes.drop_first(), i - 1);
    }
}

/// No universe is out of range if each is in it.
proof fn lemma_none_illegal(universes: Seq<u16>)
    requires
        forall|j: int|
            0 <= j < universes.len() ==> crate::packet::legal_universe(#[trigger] universes[j]),
    ensures
        first_illegal(universes) is None,
    decreases universes.len(),
{
    if universes.len() > 0 {
        lemma_none_illegal(universes.drop_first());
    }
}

/// Whether a configuration is acceptable: there are from 1 to 64 universes, each
/// in range, and the priority is in range.
pub open spec fn is_acceptable(configuration: Configuration) -> bool {
    &&& 0 < configuration.universes.len() <= MAX_UNIVERSES
    &&& forall|i: int|
        0 <= i < configuration.universes.len() ==> crate::packet::legal_universe(
            #[trigger] configuration.universes[i],
        )
    &&& configuration.priority <= MAX_PRIORITY
}

/// What is wrong with a configuration, if anything is.
pub open spec fn fault(configuration: Configuration) -> Option<Seq<char>> {
    let universes = configuration.universes;
    if universes.len() == 0 {
        Some("universe list must not be empty"@)
    } else if universes.len() > MAX_UNIVERSES {
        Some(
            "too many universes ("@ + crate::text::decimal(universes.len()) + "); max is "@
                + crate::text::decimal(MAX_UNIVERSES as nat),
        )
    } else if first_illegal(universes) is Some {
        Some(
            "universe "@ + crate::text::decimal(first_illegal(universes)->0 as nat)
                + " out of range 1..=63_999"@,
        )
    } else if configuration.priority > MAX_PRIORITY {
        Some(
            "priority "@ + crate::text::decimal(configuration.priority as nat)
                + " out of range 0..=200"@,
        )
    } else {
        None
    }
}

/// Sends frames as E1.31 packets.
#[derive(Debug)]
pub struct SacnAdapter {
    name: String,
    capabilities: Vec<Capability>,
    zones: Vec<Zone>,
    native_rate: Period,
    target_host: Host,
    target_port: u16,
    universes: Vec<u16>,
    priority: u8,
    builder: PacketBuilder,
    open: bool,
    sequence: u8,
}

/// The state of an adapter.
pub struct AdapterState {
    /// The name of the adapter.
    pub name: Seq<char>,
    /// The capabilities that are advertised.
    pub capabilities: Seq<Capability>,
    /// The zones that are driven.
    pub zones: Seq<Zone>,
    /// The time between two frames.
    pub native_rate: Period,
    /// Where packets go.
    pub target_host: Host,
    /// The port that packets go to.
    pub target_port: u16,
    /// The universes, in order.
    pub universes: Seq<u16>,
    /// The priority of the packets.
    pub priority: u8,
    /// The identifier in the packets.
    pub cid: Seq<u8>,
    /// The source name field of the packets.
    pub source_name: Seq<u8>,
    /// Whether the socket is open.
    pub open: bool,
    /// The sequence number of the next packets.
    pub sequence: u8,
}

impl View for SacnAdapter {
    type V = AdapterState;

    closed spec fn view(&self) -> AdapterState {
        AdapterState {
            name: self.name@,
            capabilities: self.capabilities@,
            zones: self.zones@,
            native_rate: self.native_rate,
            target_host: self.target_host,
            target_port: self.target_port,
            universes: self.universes@,
            priority: self.priority,
            cid: self.builder.cid_bytes(),
            source_name: self.builder.name_bytes(),
            open: self.open,
            sequence: self.sequence,
        }
    }
}

impl AdapterState {
    /// Whether packets can be made: there are from 1 to 64 universes, each in
    /// range, and the priority is in range.
    pub open spec fn well_formed(self) -> bool {
        &&& 0 < self.universes.len() <= MAX_UNIVERSES
        &&& forall|i: int|
            0 <= i < self.universes.len() ==> crate::packet::legal_universe(
                #[trigger] self.universes[i],
            )
        &&& self.priority <= MAX_PRIORITY
        &&& self.cid.len() == 16
        &&& self.source_name.len() == crate::packet::SOURCE_NAME_LEN
    }
}

/// What has happened to the packets of one tick.
#[derive(Debug)]
pub enum SendEvent {
    /// Nothing yet.
    Start,
    /// So many of them have been sent.
    Sent(usize),
    /// One of them could not be sent.
    Failed(std::io::Error),
}

/// What to do about the packets of one tick.
#[derive(Debug)]
pub enum SendAction {
    /// Send this packet.
    Transmit(Vec<u8>),
    /// All packets have been sent.
    Done,
    /// Give up.
    Fail(AdapterError),
}

/// What an action holds.
pub enum SendActionView {
    /// Send this packet.
    Transmit(Seq<u8>),
    /// All packets have been sent.
    Done,
    /// Give up.
    Fail(crate::adapter_core::AdapterErrorView),
}

impl View for SendAction {
    type V = SendActionView;

    open spec fn view(&self) -> SendActionView {
        match *self {
            SendAction::Transmit(packet) => SendActionView::Transmit(packet@),
            SendAction::Done => SendActionView::Done,
            SendAction::Fail(error) => SendActionView::Fail(error@),
        }
    }
}

/// The text of a mismatch between slots and universes.
pub open spec fn mismatch_text(slots: nat, universes: nat) -> Seq<char> {
    "slot universe count "@ + crate::text::decimal(slots) + " != adapter universe count "@
        + crate::text::decimal(universes)
}

impl AdapterState {
    /// The state when all packets of a tick have been sent.
    pub open spec fn advanced(self) -> AdapterState {
        AdapterState { sequence: ((self.sequence + 1) % 256) as u8, ..self }
    }

    /// The state and what to do when `sent` packets of a tick have been sent.
    pub open spec fn sending(self, slots: Seq<Vec<u8>>, sent: int) -> (
        AdapterState,
        SendActionView,
    ) {
        if slots.len() != self.universes.len() {
            (
                self,
                SendActionView::Fail(
                    crate::adapter_core::AdapterErrorView::Protocol(
                        mismatch_text(slots.len(), self.universes.len()),
                    ),
                ),
            )
        } else if !self.open {
            (
                self,
                SendActionView::Fail(
                    crate::adapter_core::AdapterErrorView::Connect(
                        "socket not open; call connect()"@,
                    ),
                ),
            )
        } else if sent >= self.universes.len() {
            (self.advanced(), SendActionView::Done)
        } else {
            match crate::packet::encoding(
                self.cid,
                self.source_name,
                self.universes[sent],
                self.sequence,
                self.priority,
                slots[sent]@,
            ) {
                Ok(packet) => (self, SendActionView::Transmit(packet)),
                Err(error) => (
                    self,
                    SendActionView::Fail(
                        crate::adapter_core::AdapterErrorView::Protocol(
                            crate::packet::error_text(error),
                        ),
                    ),
                ),
            }
        }
    }

    /// The state and what to do after an event.
    pub open spec fn after(self, slots: Seq<Vec<u8>>, event: SendEvent) -> (
        AdapterState,
        SendActionView,
    ) {
        match event {
            SendEvent::Start => self.sending(slots, 0),
            SendEvent::Sent(count) => self.sending(slots, count as int),
            SendEvent::Failed(error) => (
                self,
                SendActionView::Fail(crate::adapter_core::AdapterErrorView::Io(error)),
            ),
        }
    }

    /// The state after `n` ticks of which all packets were sent.
    pub open spec fn after_ticks(self, n: nat) -> AdapterState
        decreases n,
    {
        if n == 0 {
            self
        } else {
            self.after_ticks((n - 1) as nat).advanced()
        }
    }
}

/// The pixels of the first zone that has any.
pub open spec fn first_pixels(entries: Seq<(Seq<char>, ZonePayload)>) -> Option<Seq<Rgb>>
    decreases entries.len(),
{
    if entries.len() == 0 {
        None
    } else {
        match entries[0].1 {
            ZonePayload::Pixels(pixels) => Some(pixels@),
            _ => first_pixels(entries.drop_first()),
        }
    }
}

impl SacnAdapter {
    /// Whether packets can be made.
    pub open spec fn well_formed(&self) -> bool {
        self@.well_formed()
    }

    /// Notes that the socket is open.
    pub fn connect(&mut self)
        ensures
            final(self)@ == (AdapterState { open: true, ..old(self)@ }),
    {
        self.open = true;
    }

    /// Notes that the socket is closed. Closing it again changes nothing.
    pub fn disconnect(&mut self)
        ensures
            final(self)@ == (AdapterState { open: false, ..old(self)@ }),
    {
        self.open = false;
    }

    /// Decides how to go on with the packets of one tick.
    ///
    /// The packets are sent one by one, one for each universe, all with the
    /// same sequence number. The next tick has the next number.
    pub fn send_slots(&mut self, slot_universes: &[Vec<u8>], event: SendEvent) -> (result:
        SendAction)
        ensures
            (final(self)@, result@) == old(self)@.after(slot_universes@, event),
    {
        let sent: usize = match event {
            SendEvent::Start => 0,
            SendEvent::Sent(count) => count,
            SendEvent::Failed(error) => {
                return SendAction::Fail(AdapterError::Io(error));
            },
        };
        if slot_universes.len() != self.universes.len() {
            let mut text = "slot universe count ".to_owned();
            push_decimal(&mut text, slot_universes.len() as u64);
            text.append(" != adapter universe count ");
            push_decimal(&mut text, self.universes.len() as u64);
            return SendAction::Fail(AdapterError::Protocol(text));
        }
        if !self.open {
            return SendAction::Fail(
                AdapterError::Connect("socket not open; call connect()".to_owned()),
            );
        }
        if sent >= self.universes.len() {
            self.sequence = self.sequence.wrapping_add(1);
            return SendAction::Done;
        }
        let universe: u16 = self.universes[sent];
        match self.builder.encode(
            universe,
            self.sequence,
            self.priority,
            slot_universes[sent].as_slice(),
        ) {
            Ok(packet) => SendAction::Transmit(packet),
            Err(error) => SendAction::Fail(AdapterError::Protocol(error.message())),
        }
    }

    /// The slots of a frame, one run for each universe, or nothing where no
    /// zone has pixels.
    pub fn render<G: Fn(Single) -> u8>(&self, frame: &ResolvedFrame, gamma: &G) -> (result: Option<
        Vec<Vec<u8>>,
    >)
        requires
            forall|v: Single| call_requires(*gamma, (v,)),
        ensures
            match first_pixels(frame.zones.entries()) {
                Some(pixels) => result is Some && crate::partition::is_partition(
                    *gamma,
                    pixels,
                    self@.universes.len(),
                    result->0@,
                ),
                None => result is None,
            },
    {
        let ghost entries = frame.zones.entries();
        assert(entries.skip(0) =~= entries);
        let mut i: usize = 0;
        while i < frame.zones.len()
            invariant
                i <= entries.len(),
                entries == frame.zones.entries(),
                forall|v: Single| call_requires(*gamma, (v,)),
                first_pixels(entries) == first_pixels(entries.skip(i as int)),
            decreases entries.len() - i,
        {
            proof {
                assert(entries.skip(i as int).drop_first() =~= entries.skip(i + 1));
            }
            if let Some(ZonePayload::Pixels(pixels)) = frame.zones.payload_at(i) {
                return Some(self.partition_pixels(pixels.as_slice(), gamma));
            }
            i = i + 1;
        }
        None
    }

    /// The slots that pixels are sent as, one run for each universe.
    pub fn partition_pixels<G: Fn(Single) -> u8>(&self, pixels: &[Rgb], gamma: &G) -> (result: Vec<
        Vec<u8>,
    >)
        requires
            forall|v: Single| call_requires(*gamma, (v,)),
        ensures
            crate::partition::is_partition(*gamma, pixels@, self@.universes.len(), result@),
    {
        partition_rgb(pixels, self.universes.len(), gamma)
    }

    /// The builder of the packets.
    pub fn packet_builder(&self) -> (result: &PacketBuilder)
        ensures
            result.cid_bytes() == self@.cid,
            result.name_bytes() == self@.source_name,
    {
        &self.builder
    }

    /// The sequence number of the next packets.
    pub fn next_sequence(&self) -> (result: u8)
        ensures
            result == self@.sequence,
    {
        self.sequence
    }

    /// The universes, in order.
    pub fn universes(&self) -> (result: &[u16])
        ensures
            result@ == self@.universes,
    {
        self.universes.as_slice()
    }

    /// The name of the adapter.
    pub fn name(&self) -> (result: &str)
        ensures
            result@ == self@.name,
    {
        self.name.as_str()
    }

    /// The capabilities that are advertised.
    pub fn capabilities(&self) -> (result: &[Capability])
        ensures
            result@ == self@.capabilities,
    {
        self.capabilities.as_slice()
    }

    /// The zones that are driven.
    pub fn zones(&self) -> (result: &[Zone])
        ensures
            result@ == self@.zones,
    {
        self.zones.as_slice()
    }

    /// The time between two frames.
    pub fn native_rate(&self) -> (result: Period)
        ensures
            result == self@.native_rate,
    {
        self.native_rate
    }

    /// Where packets go.
    pub fn target(&self) -> (result: (Host, u16))
        ensures
            result == (self@.target_host, self@.target_port),
    {
        (self.target_host, self.target_port)
    }
}

/// While the socket is open, one packet goes out for each universe, in order,
/// all with the same sequence number; when all have been sent, the sequence
/// number is the next one.
pub proof fn lemma_one_packet_for_each_universe(
    state: AdapterState,
    slots: Seq<Vec<u8>>,
    sent: int,
)
    requires
        state.well_formed(),
        state.open,
        slots.len() == state.universes.len(),
        forall|k: int|
            0 <= k < slots.len() ==> (#[trigger] slots[k])@.len()
                <= crate::packet::MAX_SLOTS_PER_UNIVERSE,
        0 <= sent,
    ensures
        sent < state.universes.len() ==> state.sending(slots, sent) == (
            state,
            SendActionView::Transmit(
                crate::packet::data_packet(
                    state.cid,
                    state.source_name,
                    state.universes[sent],
                    state.sequence,
                    state.priority,
                    slots[sent]@,
                ),
            ),
        ),
        sent >= state.universes.len() ==> state.sending(slots, sent) == (
            state.advanced(),
            SendActionView::Done,
        ),
{
}

/// The packet of universe number `k` of a tick.
pub open spec fn tick_packet(state: AdapterState, slots: Seq<Vec<u8>>, k: int) -> Seq<u8> {
    crate::packet::data_packet(
        state.cid,
        state.source_name,
        state.universes[k],
        state.sequence,
        state.priority,
        slots[k]@,
    )
}

/// Event number `k` of a tick of which every packet is sent.
pub open spec fn tick_event(k: nat) -> SendEvent {
    if k == 0 {
        SendEvent::Start
    } else {
        SendEvent::Sent(k as usize)
    }
}

/// The state and the actions after the first `n` events of a tick of which
/// every packet is sent.
pub open spec fn tick_run(state: AdapterState, slots: Seq<Vec<u8>>, n: nat) -> (
    AdapterState,
    Seq<SendActionView>,
)
    decreases n,
{
    if n == 0 {
        (state, Seq::empty())
    } else {
        let (before, actions) = tick_run(state, slots, (n - 1) as nat);
        let (after, action) = before.after(slots, tick_event((n - 1) as nat));
        (after, actions.push(action))
    }
}

/// The first `n` events of a tick lead to the packets of the first `n`
/// universes, in order.
proof fn lemma_tick_so_far(state: AdapterState, slots: Seq<Vec<u8>>, n: nat)
    requires
        state.well_formed(),
        state.open,
        slots.len() == state.universes.len(),
        forall|k: int|
            0 <= k < slots.len() ==> (#[trigger] slots[k])@.len()
                <= crate::packet::MAX_SLOTS_PER_UNIVERSE,
        n <= state.universes.len(),
    ensures
        tick_run(state, slots, n) == (
            state,
            Seq::new(n, |k: int| SendActionView::Transmit(tick_packet(state, slots, k))),
        ),
    decreases n,
{
    if n > 0 {
        lemma_tick_so_far(state, slots, (n - 1) as nat);
        lemma_one_packet_for_each_universe(state, slots, n - 1);
    }
    assert(tick_run(state, slots, n).1 =~= Seq::new(
        n,
        |k: int| SendActionView::Transmit(tick_packet(state, slots, k)),
    ));
}

/// In a tick of which every packet is sent, the packets are those of all
/// universes in order, one for each, all with the same sequence number; then
/// the tick is done, and the sequence number is the next one.
pub proof fn lemma_whole_tick(state: AdapterState, slots: Seq<Vec<u8>>)
    requires
        state.well_formed(),
        state.open,
        slots.len() == state.universes.len(),
        forall|k: int|
            0 <= k < slots.len() ==> (#[trigger] slots[k])@.len()
                <= crate::packet::MAX_SLOTS_PER_UNIVERSE,
    ensures
        tick_run(state, slots, state.universes.len() + 1) == (
            state.advanced(),
            Seq::new(
                state.universes.len(),
                |k: int| SendActionView::Transmit(tick_packet(state, slots, k)),
            ).push(SendActionView::Done),
        ),
{
    let count = state.universes.len();
    lemma_tick_so_far(state, slots, count);
    lemma_one_packet_for_each_universe(state, slots, count as int);
}

/// A tick of which packet number `n` cannot be sent has sent the packets of the
/// universes before it, fails, and keeps the state.
pub proof fn lemma_broken_tick(
    state: AdapterState,
    slots: Seq<Vec<u8>>,
    n: nat,
    error: std::io::Error,
)
    requires
        state.well_formed(),
        state.open,
        slots.len() == state.universes.len(),
        forall|k: int|
            0 <= k < slots.len() ==> (#[trigger] slots[k])@.len()
                <= crate::packet::MAX_SLOTS_PER_UNIVERSE,
        n < state.universes.len(),
    ensures
        tick_run(state, slots, n + 1) == (
            state,
            Seq::new(
                n + 1,
                |k: int| SendActionView::Transmit(tick_packet(state, slots, k)),
            ),
        ),
        state.after(slots, SendEvent::Failed(error)) == (
            state,
            SendActionView::Fail(crate::adapter_core::AdapterErrorView::Io(error)),
        ),
{
    lemma_tick_so_far(state, slots, n + 1);
}

/// The slots of a rendered frame are never refused while the socket is open.
pub proof fn lemma_rendered_frames_are_sent<G: Fn(Single) -> u8>(
    state: AdapterState,
    gamma: G,
    pixels: Seq<Rgb>,
    slots: Seq<Vec<u8>>,
    sent: int,
)
    requires
        state.well_formed(),
        state.open,
        crate::partition::is_partition(gamma, pixels, state.universes.len(), slots),
        0 <= sent,
    ensures
        !(state.sending(slots, sent).1 is Fail),
{
    assert forall|k: int| 0 <= k < slots.len() implies (#[trigger] slots[k])@.len()
        <= crate::packet::MAX_SLOTS_PER_UNIVERSE by {
        crate::partition::lemma_parts_fit_into_packets(
            gamma,
            pixels,
            state.universes.len(),
            slots,
            k,
        );
    }
    lemma_one_packet_for_each_universe(state, slots, sent);
}

/// Nothing is sent while the socket is closed.
pub proof fn lemma_nothing_is_sent_while_closed(
    state: AdapterState,
    slots: Seq<Vec<u8>>,
    event: SendEvent,
)
    requires
        !state.open,
    ensures
        state.after(slots, event).0 == state,
        state.after(slots, event).1 is Fail,
{
}

/// The sequence number counts the ticks of which all packets were sent, from
/// 255 on to 0, and nothing else of the adapter changes with them.
pub proof fn lemma_sequence_counts_ticks(state: AdapterState, n: nat)
    ensures
        state.after_ticks(n) == (AdapterState {
            sequence: ((state.sequence + n) % 256) as u8,
            ..state
        }),
    decreases n,
{
    if n > 0 {
        lemma_sequence_counts_ticks(state, (n - 1) as nat);
    }
}

/// Whatever happens, an adapter stays able to make packets, and its identifier
/// and source name stay the same.
pub proof fn lemma_identity_is_kept(state: AdapterState, slots: Seq<Vec<u8>>, event: SendEvent)
    ensures
        state.after(slots, event).0.cid == state.cid,
        state.after(slots, event).0.source_name == state.source_name,
        state.well_formed() ==> state.after(slots, event).0.well_formed(),
{
}

/// A configuration has a fault unless it has from 1 to 64 universes, each from 1
/// to 63999, and a priority of at most 200.
pub proof fn lemma_faults(configuration: Configuration)
    ensures
        fault(configuration) is None <==> {
            &&& 1 <= configuration.universes.len() <= 64
            &&& forall|i: int|
                0 <= i < configuration.universes.len() ==> 1
                    <= #[trigger] configuration.universes[i] <= 63_999
            &&& configuration.priority <= 200
        },
{
    let universes = configuration.universes;
    if forall|i: int| 0 <= i < universes.len() ==> 1 <= #[trigger] universes[i] <= 63_999 {
        lemma_none_illegal(universes);
    } else {
        lemma_some_illegal(universes);
    }
}

/// Where a universe is out of range, there is a first such universe.
proof fn lemma_some_illegal(universes: Seq<u16>)
    requires
        !(forall|i: int| 0 <= i < universes.len() ==> 1 <= #[trigger] universes[i] <= 63_999),
    ensures
        first_illegal(universes) is Some,
    decreases universes.len(),
{
    if crate::packet::legal_universe(universes[0]) && universes.len() > 0 {
        let rest = universes.drop_first();
        if forall|i: int| 0 <= i < rest.len() ==> 1 <= #[trigger] rest[i] <= 63_999 {
            assert forall|i: int| 0 <= i < universes.len() implies 1 <= #[trigger] universes[i]
                <= 63_999 by {
                if i > 0 {
                    assert(rest[i - 1] == universes[i]);
                }
            }
        }
        lemma_some_illegal(rest);
    }
}

/// The text of a fault: of the universes first, by their number and then by the
/// first that is out of range, and of the priority last.
pub proof fn lemma_fault_texts(configuration: Configuration, i: int)
    ensures
        ({
            let universes = configuration.universes;
            let text = fault(configuration);
            &&& universes.len() == 0 ==> text == Some("universe list must not be empty"@)
            &&& universes.len() > 64 ==> text == Some(
                "too many universes ("@ + crate::text::decimal(universes.len()) + "); max is "@
                    + crate::text::decimal(64),
            )
            &&& universes.len() <= 64 && 0 <= i < universes.len() && (universes[i] == 0
                || universes[i] > 63_999) && (forall|j: int|
                0 <= j < i ==> 1 <= #[trigger] universes[j] <= 63_999) ==> text == Some(
                "universe "@ + crate::text::decimal(universes[i] as nat)
                    + " out of range 1..=63_999"@,
            )
            &&& 1 <= universes.len() <= 64 && (forall|j: int|
                0 <= j < universes.len() ==> 1 <= #[trigger] universes[j] <= 63_999)
                && configuration.priority > 200 ==> text == Some(
                "priority "@ + crate::text::decimal(configuration.priority as nat)
                    + " out of range 0..=200"@,
            )
        }),
{
    let universes = configuration.universes;
    if 0 <= i < universes.len() && (universes[i] == 0 || universes[i] > 63_999) && (forall|j: int|
        0 <= j < i ==> 1 <= #[trigger] universes[j] <= 63_999) {
        lemma_first_illegal(universes, i);
    }
    if forall|j: int| 0 <= j < universes.len() ==> 1 <= #[trigger] universes[j] <= 63_999 {
        lemma_none_illegal(universes);
    }
}

/// The zone that is rendered is the first one with pixels; where none has any,
/// nothing is.
pub proof fn lemma_first_pixels(entries: Seq<(Seq<char>, ZonePayload)>, i: int)
    ensures
        0 <= i < entries.len() && entries[i].1 is Pixels && (forall|j: int|
            0 <= j < i ==> !((#[trigger] entries[j]).1 is Pixels)) ==> first_pixels(entries)
            == Some(entries[i].1->Pixels_0@),
        (forall|j: int| 0 <= j < entries.len() ==> !((#[trigger] entries[j]).1 is Pixels))
            ==> first_pixels(entries) is None,
    decreases entries.len(),
{
    if entries.len() > 0 && !(entries[0].1 is Pixels) {
        let rest = entries.drop_first();
        lemma_first_pixels(rest, i - 1);
        if 0 < i < entries.len() && (forall|j: int|
            0 <= j < i ==> !((#[trigger] entries[j]).1 is Pixels)) {
            assert forall|j: int| 0 <= j < i - 1 implies !((#[trigger] rest[j]).1 is Pixels) by {
                assert(rest[j] == entries[j + 1]);
            }
        }
        if forall|j: int| 0 <= j < entries.len() ==> !((#[trigger] entries[j]).1 is Pixels) {
            assert forall|j: int| 0 <= j < rest.len() implies !((#[trigger] rest[j]).1 is Pixels) by {
                assert(rest[j] == entries[j + 1]);
            }
        }
    }
}

/// What is refused, and why: slots for another number of universes, a closed
/// socket, and slots that do not fit into a packet. Nothing of the adapter
/// changes with a refusal.
pub proof fn lemma_refusals(state: AdapterState, slots: Seq<Vec<u8>>, sent: int)
    requires
        state.well_formed(),
        0 <= sent,
    ensures
        slots.len() != state.universes.len() ==> state.sending(slots, sent) == (
            state,
            SendActionView::Fail(
                crate::adapter_core::AdapterErrorView::Protocol(
                    "slot universe count "@ + crate::text::decimal(slots.len())
                        + " != adapter universe count "@ + crate::text::decimal(
                        state.universes.len(),
                    ),
                ),
            ),
        ),
        slots.len() == state.universes.len() && !state.open ==> state.sending(slots, sent) == (
            state,
            SendActionView::Fail(
                crate::adapter_core::AdapterErrorView::Connect(
                    "socket not open; call connect()"@,
                ),
            ),
        ),
        slots.len() == state.universes.len() && state.open && sent < slots.len()
            && slots[sent]@.len() > 512 ==> state.sending(slots, sent) == (
            state,
            SendActionView::Fail(
                crate::adapter_core::AdapterErrorView::Protocol(
                    "too many slots: "@ + crate::text::decimal(slots[sent]@.len())
                        + "; max is 512"@,
                ),
            ),
        ),
{
    if sent < state.universes.len() {
        assert(crate::packet::legal_universe(state.universes[sent]));
    }
    if sent < slots.len() {
        assert(slots[sent].len() == slots[sent]@.len());
    }
}

/// The sequence number after a tick is one more, or 0 after 255, and nothing
/// else of the adapter changes.
pub proof fn lemma_next_sequence(state: AdapterState)
    ensures
        state.sequence < 255 ==> state.advanced().sequence == state.sequence + 1,
        state.sequence == 255 ==> state.advanced().sequence == 0,
        state.advanced() == (AdapterState { sequence: state.advanced().sequence, ..state }),
{
}

} // verus!
