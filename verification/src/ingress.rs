//! From datagrams to audio values.
//!
//! Every audio variable arrives as one number on an address of the form
//! `/audio/<category>/<name>`. Addresses that nothing is kept of, and messages
//! without a number, are passed over.

use vstd::prelude::*;
use vstd::string::*;

use crate::binary32::Single;
use crate::frame::{AudioFrameBuilder, Band};
use crate::osc::{decode, Arg, Message, Packet};
use crate::text::same_text;
use crate::types::{AudioFrame, BandValues};

verus! {

/// The longest datagram that is received.
pub const RECV_BUFFER_BYTES: usize = 65_536;

/// `std::io::Error`, the reason why an I/O operation failed.
#[verifier::external_type_specification]
#[verifier::external_body]
pub struct ExIoError(std::io::Error);

/// Why audio could not be ingested.
#[derive(Debug)]
pub enum IngressError {
    /// The socket failed.
    Io(std::io::Error),
    /// The datagram is no packet.
    Decode(rosc::OscError),
}

impl From<rosc::OscError> for IngressError {
    fn from(value: rosc::OscError) -> (result: IngressError) {
        IngressError::Decode(value)
    }
}

impl vstd::std_specs::convert::FromSpecImpl<rosc::OscError> for IngressError {
    open spec fn obeys_from_spec() -> bool {
        true
    }

    open spec fn from_spec(value: rosc::OscError) -> IngressError {
        IngressError::Decode(value)
    }
}

impl From<std::io::Error> for IngressError {
    fn from(value: std::io::Error) -> (result: IngressError) {
        IngressError::Io(value)
    }
}

impl vstd::std_specs::convert::FromSpecImpl<std::io::Error> for IngressError {
    open spec fn obeys_from_spec() -> bool {
        true
    }

    open spec fn from_spec(value: std::io::Error) -> IngressError {
        IngressError::Io(value)
    }
}

/// The text of an ingress error, where `cause` is the text of what caused it.
pub open spec fn ingress_error_text(error: IngressError, cause: Seq<char>) -> Seq<char> {
    match error {
        IngressError::Io(_) => "UDP I/O error: "@ + cause,
        IngressError::Decode(_) => "OSC decode error: "@ + cause,
    }
}

impl IngressError {
    /// The text of the error. The caller gives the text of what caused it.
    pub fn message(&self, cause: &str) -> (result: String)
        ensures
            result@ == ingress_error_text(*self, cause@),
    {
        match self {
            IngressError::Io(_) => "UDP I/O error: ".to_owned().concat(cause),
            IngressError::Decode(_) => "OSC decode error: ".to_owned().concat(cause),
        }
    }
}

/// Where a number goes.
#[derive(Clone, Copy, Debug, Eq, PartialEq, Structural)]
pub enum Target {
    /// The level of a band.
    Level(Band),
    /// The transient hits of a band.
    Hit(Band),
    /// The presence of a band.
    Presence(Band),
    /// The beat envelope.
    OnBeat,
    /// The tempo.
    Bpm,
    /// The confidence in the tempo.
    BpmConfidence,
    /// The intensity.
    Intensity,
}

/// Where a number on an address goes, if anything is kept of it.
///
/// Not kept are the unsmoothed level, the random value and the counter of the
/// beats, the oscillators derived from the tempo, and the time uniforms.
pub open spec fn target_of(addr: Seq<char>) -> Option<Target> {
    if addr == "/audio/level/all"@ {
        Some(Target::Level(Band::Whole))
    } else if addr == "/audio/level/bass"@ {
        Some(Target::Level(Band::Bass))
    } else if addr == "/audio/level/mid"@ {
        Some(Target::Level(Band::Mid))
    } else if addr == "/audio/level/midhigh"@ {
        Some(Target::Level(Band::MidHigh))
    } else if addr == "/audio/level/high"@ {
        Some(Target::Level(Band::High))
    } else if addr == "/audio/hits/all"@ {
        Some(Target::Hit(Band::Whole))
    } else if addr == "/audio/hits/bass"@ {
        Some(Target::Hit(Band::Bass))
    } else if addr == "/audio/hits/mid"@ {
        Some(Target::Hit(Band::Mid))
    } else if addr == "/audio/hits/midhigh"@ {
        Some(Target::Hit(Band::MidHigh))
    } else if addr == "/audio/hits/high"@ {
        Some(Target::Hit(Band::High))
    } else if addr == "/audio/presence/all"@ {
        Some(Target::Presence(Band::Whole))
    } else if addr == "/audio/presence/bass"@ {
        Some(Target::Presence(Band::Bass))
    } else if addr == "/audio/presence/mid"@ {
        Some(Target::Presence(Band::Mid))
    } else if addr == "/audio/presence/midhigh"@ {
        Some(Target::Presence(Band::MidHigh))
    } else if addr == "/audio/presence/high"@ {
        Some(Target::Presence(Band::High))
    } else if addr == "/audio/beat/onbeat"@ {
        Some(Target::OnBeat)
    } else if addr == "/audio/bpm/bpm"@ {
        Some(Target::Bpm)
    } else if addr == "/audio/bpm/bpmconfidence"@ {
        Some(Target::BpmConfidence)
    } else if addr == "/audio/energy/intensity"@ {
        Some(Target::Intensity)
    } else {
        None
    }
}

/// The number of a message: its first argument, if that is an integer or a
/// number of either precision.
pub open spec fn number_of(args: Seq<crate::osc::ArgView>) -> Option<Single> {
    if args.len() == 0 {
        None
    } else {
        match args[0] {
            crate::osc::ArgView::Float(v) => Some(v),
            crate::osc::ArgView::Double(v) => Some(v.narrowed()),
            crate::osc::ArgView::Int(v) => Some(Single::of_integer(v as int)),
            _ => None,
        }
    }
}

/// A frame with a number stored in it.
pub open spec fn stored(
    frame: AudioFrame,
    target: Target,
    v: Single,
) -> AudioFrame {
    let value = crate::frame::unit(v);
    match target {
        Target::Level(band) => AudioFrame {
            levels: frame.levels.with_band(band, value),
            ..frame
        },
        Target::Hit(band) => AudioFrame {
            hits: frame.hits.with_band(band, value),
            ..frame
        },
        Target::Presence(band) => AudioFrame {
            presence: frame.presence.with_band(band, value),
            ..frame
        },
        Target::OnBeat => AudioFrame { on_beat: value, ..frame },
        Target::Bpm => AudioFrame { bpm: crate::frame::tempo(v), ..frame },
        Target::BpmConfidence => AudioFrame { bpm_confidence: value, ..frame },
        Target::Intensity => AudioFrame { intensity: value, ..frame },
    }
}

/// A frame after a message.
pub open spec fn applied(
    frame: AudioFrame,
    message: crate::osc::MessageView,
) -> AudioFrame {
    match (target_of(message.addr), number_of(message.args)) {
        (Some(target), Some(v)) => stored(frame, target, v),
        _ => frame,
    }
}

/// A frame after messages, in order.
pub open spec fn applied_all(
    frame: AudioFrame,
    messages: Seq<crate::osc::MessageView>,
) -> AudioFrame
    decreases messages.len(),
{
    if messages.len() == 0 {
        frame
    } else {
        applied(applied_all(frame, messages.drop_last()), messages.last())
    }
}

/// Where a number on an address goes.
pub fn route(addr: &str) -> (result: Option<Target>)
    ensures
        result == target_of(addr@),
{
    if same_text(addr, "/audio/level/all") {
        Some(Target::Level(Band::Whole))
    } else if same_text(addr, "/audio/level/bass") {
        Some(Target::Level(Band::Bass))
    } else if same_text(addr, "/audio/level/mid") {
        Some(Target::Level(Band::Mid))
    } else if same_text(addr, "/audio/level/midhigh") {
        Some(Target::Level(Band::MidHigh))
    } else if same_text(addr, "/audio/level/high") {
        Some(Target::Level(Band::High))
    } else if same_text(addr, "/audio/hits/all") {
        Some(Target::Hit(Band::Whole))
    } else if same_text(addr, "/audio/hits/bass") {
        Some(Target::Hit(Band::Bass))
    } else if same_text(addr, "/audio/hits/mid") {
        Some(Target::Hit(Band::Mid))
    } else if same_text(addr, "/audio/hits/midhigh") {
        Some(Target::Hit(Band::MidHigh))
    } else if same_text(addr, "/audio/hits/high") {
        Some(Target::Hit(Band::High))
    } else if same_text(addr, "/audio/presence/all") {
        Some(Target::Presence(Band::Whole))
    } else if same_text(addr, "/audio/presence/bass") {
        Some(Target::Presence(Band::Bass))
    } else if same_text(addr, "/audio/presence/mid") {
        Some(Target::Presence(Band::Mid))
    } else if same_text(addr, "/audio/presence/midhigh") {
        Some(Target::Presence(Band::MidHigh))
    } else if same_text(addr, "/audio/presence/high") {
        Some(Target::Presence(Band::High))
    } else if same_text(addr, "/audio/beat/onbeat") {
        Some(Target::OnBeat)
    } else if same_text(addr, "/audio/bpm/bpm") {
        Some(Target::Bpm)
    } else if same_text(addr, "/audio/bpm/bpmconfidence") {
        Some(Target::BpmConfidence)
    } else if same_text(addr, "/audio/energy/intensity") {
        Some(Target::Intensity)
    } else {
        None
    }
}

/// The number of a message.
pub fn first_float(message: &Message) -> (result: Option<Single>)
    ensures
        result == number_of(message@.args),
{
    if message.args.len() == 0 {
        return None;
    }
    match &message.args[0] {
        Arg::Float(v) => Some(*v),
        Arg::Double(v) => Some(v.narrow()),
        Arg::Int(v) => Some(Single::from_integer(*v)),
        _ => None,
    }
}

/// Stores a number.
fn store(builder: &mut AudioFrameBuilder, target: Target, v: Single)
    ensures
        final(builder).frame() == stored(old(builder).frame(), target, v),
{
    match target {
        Target::Level(band) => builder.set_level(band, v),
        Target::Hit(band) => builder.set_hit(band, v),
        Target::Presence(band) => builder.set_presence(band, v),
        Target::OnBeat => builder.set_on_beat(v),
        Target::Bpm => builder.set_bpm(v),
        Target::BpmConfidence => builder.set_bpm_confidence(v),
        Target::Intensity => builder.set_intensity(v),
    }
}

/// Applies a message.
pub fn apply_message(message: &Message, builder: &mut AudioFrameBuilder)
    ensures
        final(builder).frame() == applied(old(builder).frame(), message@),
{
    if let Some(target) = route(message.addr.as_str()) {
        if let Some(v) = first_float(message) {
            store(builder, target, v);
        }
    }
}

/// Applies every message of a packet, in order.
pub fn apply_packet(packet: &Packet, builder: &mut AudioFrameBuilder)
    ensures
        final(builder).frame() == applied_all(
            old(builder).frame(),
            crate::osc::messages(packet@),
        ),
    decreases packet@,
{
    match packet {
        Packet::Message(message) => {
            let ghost before = builder.frame();
            apply_message(message, builder);
            proof {
                let one = seq![message@];
                assert(applied_all(before, one.drop_last()) == before);
            }
        },
        Packet::Bundle(time, items) => {
            let ghost before = builder.frame();
            let ghost views = crate::osc::items_view(*items, items.len() as nat);
            let mut i: usize = 0;
            while i < items.len()
                invariant
                    i <= items.len(),
                    views == crate::osc::items_view(*items, items.len() as nat),
                    packet@ == crate::osc::PacketView::Bundle(*time, views),
                    builder.frame() == applied_all(
                        before,
                        crate::osc::messages_of(views, i as nat),
                    ),
                decreases items.len() - i,
            {
                proof {
                    crate::osc::lemma_items_view(*items, items.len() as nat);
                    assert(decreases_to!(packet@ => packet@->Bundle_1));
                    lemma_applied_in_two_parts(
                        before,
                        crate::osc::messages_of(views, i as nat),
                        crate::osc::messages(views[i as int]),
                    );
                }
                apply_packet(&items[i], builder);
                i = i + 1;
            }
            proof {
                crate::osc::lemma_items_view(*items, items.len() as nat);
            }
        },
    }
}

/// Applying messages and then more messages is applying all of them.
pub proof fn lemma_applied_in_two_parts(
    frame: AudioFrame,
    first: Seq<crate::osc::MessageView>,
    second: Seq<crate::osc::MessageView>,
)
    ensures
        applied_all(frame, first + second) == applied_all(applied_all(frame, first), second),
    decreases second.len(),
{
    if second.len() > 0 {
        lemma_applied_in_two_parts(frame, first, second.drop_last());
        assert((first + second).drop_last() =~= first + second.drop_last());
    }
}

/// Decodes a datagram and applies every message in it. A datagram that is no
/// packet changes nothing.
pub fn dispatch_packet(bytes: &[u8], builder: &mut AudioFrameBuilder) -> (result: Result<
    (),
    IngressError,
>)
    ensures
        match crate::osc::decoding(bytes@) {
            Ok(packet) => result is Ok && final(builder).frame() == applied_all(
                old(builder).frame(),
                crate::osc::messages(packet),
            ),
            Err(error) => {
                &&& result is Err
                &&& result->Err_0 == IngressError::Decode(error)
                &&& final(builder).frame() == old(builder).frame()
            },
        },
{
    match decode(bytes) {
        Ok(packet) => {
            apply_packet(&packet, builder);
            Ok(())
        },
        Err(error) => Err(IngressError::from(error)),
    }
}

/// Decodes a datagram, applies every message in it and takes a frame. The
/// packet is handed back for inspection.
pub fn ingest(bytes: &[u8], builder: &mut AudioFrameBuilder) -> (result: Result<
    (AudioFrame, Packet),
    IngressError,
>)
    ensures
        match crate::osc::decoding(bytes@) {
            Ok(packet) => {
                &&& result is Ok
                &&& result->Ok_0.0 == applied_all(
                    old(builder).frame(),
                    crate::osc::messages(packet),
                )
                &&& result->Ok_0.0.legal()
                &&& result->Ok_0.1@ == packet
                &&& final(builder).frame() == result->Ok_0.0
            },
            Err(error) => {
                &&& result is Err
                &&& result->Err_0 == IngressError::Decode(error)
                &&& final(builder).frame() == old(builder).frame()
            },
        },
{
    match decode(bytes) {
        Ok(packet) => {
            apply_packet(&packet, builder);
            Ok((builder.snapshot(), packet))
        },
        Err(error) => Err(IngressError::from(error)),
    }
}

/// Only addresses under `/audio/` have any effect.
pub proof fn lemma_only_audio_addresses_count(addr: Seq<char>)
    requires
        target_of(addr) is Some,
    ensures
        addr.len() > 7,
        addr.take(7) == "/audio/"@,
{
    reveal_strlit("/audio/");
    reveal_strlit("/audio/level/all");
    reveal_strlit("/audio/level/bass");
    reveal_strlit("/audio/level/mid");
    reveal_strlit("/audio/level/midhigh");
    reveal_strlit("/audio/level/high");
    reveal_strlit("/audio/hits/all");
    reveal_strlit("/audio/hits/bass");
    reveal_strlit("/audio/hits/mid");
    reveal_strlit("/audio/hits/midhigh");
    reveal_strlit("/audio/hits/high");
    reveal_strlit("/audio/presence/all");
    reveal_strlit("/audio/presence/bass");
    reveal_strlit("/audio/presence/mid");
    reveal_strlit("/audio/presence/midhigh");
    reveal_strlit("/audio/presence/high");
    reveal_strlit("/audio/beat/onbeat");
    reveal_strlit("/audio/bpm/bpm");
    reveal_strlit("/audio/bpm/bpmconfidence");
    reveal_strlit("/audio/energy/intensity");
}

/// No two addresses have the same target.
pub proof fn lemma_each_target_has_one_address(addr: Seq<char>, other: Seq<char>)
    requires
        target_of(addr) is Some,
        target_of(addr) == target_of(other),
    ensures
        addr == other,
{
}

/// A message on an unknown address, without arguments or with a first argument
/// that is no number changes nothing.
pub proof fn lemma_other_messages_change_nothing(
    frame: AudioFrame,
    message: crate::osc::MessageView,
)
    requires
        target_of(message.addr) is None || number_of(message.args) is None,
    ensures
        applied(frame, message) == frame,
{
}

/// Of two values for the same target the later one counts.
pub proof fn lemma_latest_value_counts(
    frame: AudioFrame,
    target: Target,
    earlier: Single,
    later: Single,
)
    ensures
        stored(stored(frame, target, earlier), target, later) == stored(frame, target, later),
{
}

/// Values for different targets do not disturb each other.
pub proof fn lemma_targets_are_independent(
    frame: AudioFrame,
    target: Target,
    v: Single,
    other: Target,
    w: Single,
)
    requires
        target != other,
    ensures
        stored(stored(frame, target, v), other, w) == stored(stored(frame, other, w), target, v),
{
}

/// Whatever messages arrive, a legal frame stays legal, and its time, beat
/// phase and fade stay as they are.
pub proof fn lemma_messages_keep_frames_legal(
    frame: AudioFrame,
    messages: Seq<crate::osc::MessageView>,
)
    requires
        frame.legal(),
    ensures
        applied_all(frame, messages).legal(),
        applied_all(frame, messages).t == frame.t,
        applied_all(frame, messages).beat_phase == frame.beat_phase,
        applied_all(frame, messages).fade == frame.fade,
    decreases messages.len(),
{
    if messages.len() > 0 {
        lemma_messages_keep_frames_legal(frame, messages.drop_last());
    }
}

/// The number of a message is its first argument, whatever follows it. Floats
/// are taken as they are, integers and doubles as the nearest number; nothing
/// else is a number.
pub proof fn lemma_number_is_the_first_argument(
    first: crate::osc::ArgView,
    rest: Seq<crate::osc::ArgView>,
)
    ensures
        number_of(Seq::empty()) is None,
        ({
            let number = number_of(seq![first] + rest);
            &&& number == number_of(seq![first])
            &&& first matches crate::osc::ArgView::Float(v) ==> number == Some(v)
            &&& first matches crate::osc::ArgView::Double(v) ==> number == Some(v.narrowed())
            &&& first matches crate::osc::ArgView::Int(v) ==> number == Some(
                Single::of_integer(v as int),
            )
            &&& number is Some <==> first is Float || first is Double || first is Int
        }),
{
}

/// A number that is stored reads back from the field of its target, moved into
/// the range of that field, and every other field keeps what it had.
pub proof fn lemma_stored_values_read_back(frame: AudioFrame, band: Band, v: Single)
    ensures
        stored(frame, Target::Level(band), v).levels == frame.levels.with_band(
            band,
            crate::frame::unit(v),
        ),
        stored(frame, Target::Hit(band), v).hits == frame.hits.with_band(
            band,
            crate::frame::unit(v),
        ),
        stored(frame, Target::Presence(band), v).presence == frame.presence.with_band(
            band,
            crate::frame::unit(v),
        ),
        stored(frame, Target::OnBeat, v).on_beat == crate::frame::unit(v),
        stored(frame, Target::Bpm, v).bpm == crate::frame::tempo(v),
        stored(frame, Target::BpmConfidence, v).bpm_confidence == crate::frame::unit(v),
        stored(frame, Target::Intensity, v).intensity == crate::frame::unit(v),
        forall|target: Target|
            ({
                let after = #[trigger] stored(frame, target, v);
                &&& !(target is Level) ==> after.levels == frame.levels
                &&& !(target is Hit) ==> after.hits == frame.hits
                &&& !(target is Presence) ==> after.presence == frame.presence
                &&& !(target is OnBeat) ==> after.on_beat == frame.on_beat
                &&& !(target is Bpm) ==> after.bpm == frame.bpm
                &&& !(target is BpmConfidence) ==> after.bpm_confidence == frame.bpm_confidence
                &&& !(target is Intensity) ==> after.intensity == frame.intensity
                &&& after.t == frame.t && after.beat_phase == frame.beat_phase
                &&& after.fade == frame.fade
            }),
{
}

/// A message with a number, by its address and its number alone.
pub open spec fn number_message(addr: Seq<char>, v: Single) -> crate::osc::MessageView {
    crate::osc::MessageView { addr, args: seq![crate::osc::ArgView::Float(v)] }
}

/// A message on `/audio/level/<band>` sets the level of that band, and nothing
/// else.
#[verifier::spinoff_prover]
pub proof fn lemma_level_messages(frame: AudioFrame, v: Single)
    ensures
        applied(frame, number_message("/audio/level/all"@, v)) == (AudioFrame {
            levels: BandValues { whole: crate::frame::unit(v), ..frame.levels },
            ..frame
        }),
        applied(frame, number_message("/audio/level/bass"@, v)) == (AudioFrame {
            levels: BandValues { bass: crate::frame::unit(v), ..frame.levels },
            ..frame
        }),
        applied(frame, number_message("/audio/level/mid"@, v)) == (AudioFrame {
            levels: BandValues { mid: crate::frame::unit(v), ..frame.levels },
            ..frame
        }),
        applied(frame, number_message("/audio/level/midhigh"@, v)) == (AudioFrame {
            levels: BandValues { mid_high: crate::frame::unit(v), ..frame.levels },
            ..frame
        }),
        applied(frame, number_message("/audio/level/high"@, v)) == (AudioFrame {
            levels: BandValues { high: crate::frame::unit(v), ..frame.levels },
            ..frame
        }),
{
    reveal_strlit("/audio/level/all");
    assert("/audio/level/all"@.len() == 16);
    reveal_strlit("/audio/level/bass");
    assert("/audio/level/bass"@.len() == 17);
    reveal_strlit("/audio/level/mid");
    assert("/audio/level/mid"@.len() == 16);
    reveal_strlit("/audio/level/midhigh");
    assert("/audio/level/midhigh"@.len() == 20);
    reveal_strlit("/audio/level/high");
    assert("/audio/level/high"@.len() == 17);
    assert("/audio/level/mid"@[13] != "/audio/level/all"@[13]);
    assert("/audio/level/high"@[13] != "/audio/level/bass"@[13]);
}

/// A message on `/audio/hits/<band>` sets the hits of that band, and nothing
/// else.
#[verifier::spinoff_prover]
pub proof fn lemma_hit_messages(frame: AudioFrame, v: Single)
    ensures
        applied(frame, number_message("/audio/hits/all"@, v)) == (AudioFrame {
            hits: BandValues { whole: crate::frame::unit(v), ..frame.hits },
            ..frame
        }),
        applied(frame, number_message("/audio/hits/bass"@, v)) == (AudioFrame {
            hits: BandValues { bass: crate::frame::unit(v), ..frame.hits },
            ..frame
        }),
        applied(frame, number_message("/audio/hits/mid"@, v)) == (AudioFrame {
            hits: BandValues { mid: crate::frame::unit(v), ..frame.hits },
            ..frame
        }),
        applied(frame, number_message("/audio/hits/midhigh"@, v)) == (AudioFrame {
            hits: BandValues { mid_high: crate::frame::unit(v), ..frame.hits },
            ..frame
        }),
        applied(frame, number_message("/audio/hits/high"@, v)) == (AudioFrame {
            hits: BandValues { high: crate::frame::unit(v), ..frame.hits },
            ..frame
        }),
{
    reveal_strlit("/audio/level/all");
    assert("/audio/level/all"@.len() == 16);
    reveal_strlit("/audio/level/bass");
    assert("/audio/level/bass"@.len() == 17);
    reveal_strlit("/audio/level/mid");
    assert("/audio/level/mid"@.len() == 16);
    reveal_strlit("/audio/level/midhigh");
    assert("/audio/level/midhigh"@.len() == 20);
    reveal_strlit("/audio/level/high");
    assert("/audio/level/high"@.len() == 17);
    reveal_strlit("/audio/hits/all");
    assert("/audio/hits/all"@.len() == 15);
    reveal_strlit("/audio/hits/bass");
    assert("/audio/hits/bass"@.len() == 16);
    reveal_strlit("/audio/hits/mid");
    assert("/audio/hits/mid"@.len() == 15);
    reveal_strlit("/audio/hits/midhigh");
    assert("/audio/hits/midhigh"@.len() == 19);
    reveal_strlit("/audio/hits/high");
    assert("/audio/hits/high"@.len() == 16);
    assert("/audio/hits/bass"@[7] != "/audio/level/all"@[7]);
    assert("/audio/hits/bass"@[7] != "/audio/level/mid"@[7]);
    assert("/audio/hits/mid"@[12] != "/audio/hits/all"@[12]);
    assert("/audio/hits/high"@[7] != "/audio/level/all"@[7]);
    assert("/audio/hits/high"@[7] != "/audio/level/mid"@[7]);
    assert("/audio/hits/high"@[12] != "/audio/hits/bass"@[12]);
}

/// A message on `/audio/presence/<band>` sets the presence of that band, and nothing
/// else.
#[verifier::spinoff_prover]
pub proof fn lemma_presence_messages(frame: AudioFrame, v: Single)
    ensures
        applied(frame, number_message("/audio/presence/all"@, v)) == (AudioFrame {
            presence: BandValues { whole: crate::frame::unit(v), ..frame.presence },
            ..frame
        }),
        applied(frame, number_message("/audio/presence/bass"@, v)) == (AudioFrame {
            presence: BandValues { bass: crate::frame::unit(v), ..frame.presence },
            ..frame
        }),
        applied(frame, number_message("/audio/presence/mid"@, v)) == (AudioFrame {
            presence: BandValues { mid: crate::frame::unit(v), ..frame.presence },
            ..frame
        }),
        applied(frame, number_message("/audio/presence/midhigh"@, v)) == (AudioFrame {
            presence: BandValues { mid_high: crate::frame::unit(v), ..frame.presence },
            ..frame
        }),
        applied(frame, number_message("/audio/presence/high"@, v)) == (AudioFrame {
            presence: BandValues { high: crate::frame::unit(v), ..frame.presence },
            ..frame
        }),
{
    reveal_strlit("/audio/level/all");
    assert("/audio/level/all"@.len() == 16);
    reveal_strlit("/audio/level/bass");
    assert("/audio/level/bass"@.len() == 17);
    reveal_strlit("/audio/level/mid");
    assert("/audio/level/mid"@.len() == 16);
    reveal_strlit("/audio/level/midhigh");
    assert("/audio/level/midhigh"@.len() == 20);
    reveal_strlit("/audio/level/high");
    assert("/audio/level/high"@.len() == 17);
    reveal_strlit("/audio/hits/all");
    assert("/audio/hits/all"@.len() == 15);
    reveal_strlit("/audio/hits/bass");
    assert("/audio/hits/bass"@.len() == 16);
    reveal_strlit("/audio/hits/mid");
    assert("/audio/hits/mid"@.len() == 15);
    reveal_strlit("/audio/hits/midhigh");
    assert("/audio/hits/midhigh"@.len() == 19);
    reveal_strlit("/audio/hits/high");
    assert("/audio/hits/high"@.len() == 16);
    reveal_strlit("/audio/presence/all");
    assert("/audio/presence/all"@.len() == 19);
    reveal_strlit("/audio/presence/bass");
    assert("/audio/presence/bass"@.len() == 20);
    reveal_strlit("/audio/presence/mid");
    assert("/audio/presence/mid"@.len() == 19);
    reveal_strlit("/audio/presence/midhigh");
    assert("/audio/presence/midhigh"@.len() == 23);
    reveal_strlit("/audio/presence/high");
    assert("/audio/presence/high"@.len() == 20);
    assert("/audio/presence/all"@[7] != "/audio/hits/midhigh"@[7]);
    assert("/audio/presence/bass"@[7] != "/audio/level/midhigh"@[7]);
    assert("/audio/presence/mid"@[7] != "/audio/hits/midhigh"@[7]);
    assert("/audio/presence/mid"@[16] != "/audio/presence/all"@[16]);
    assert("/audio/presence/high"@[7] != "/audio/level/midhigh"@[7]);
    assert("/audio/presence/high"@[16] != "/audio/presence/bass"@[16]);
}

/// The messages of the beat envelope, the tempo, its confidence and the intensity
/// set these, and nothing
/// else.
#[verifier::spinoff_prover]
pub proof fn lemma_macro_messages(frame: AudioFrame, v: Single)
    ensures
        applied(frame, number_message("/audio/beat/onbeat"@, v)) == (AudioFrame {
            on_beat: crate::frame::unit(v),
            ..frame
        }),
        applied(frame, number_message("/audio/bpm/bpm"@, v)) == (AudioFrame {
            bpm: crate::frame::tempo(v),
            ..frame
        }),
        applied(frame, number_message("/audio/bpm/bpmconfidence"@, v)) == (AudioFrame {
            bpm_confidence: crate::frame::unit(v),
            ..frame
        }),
        applied(frame, number_message("/audio/energy/intensity"@, v)) == (AudioFrame {
            intensity: crate::frame::unit(v),
            ..frame
        }),
{
    reveal_strlit("/audio/level/all");
    assert("/audio/level/all"@.len() == 16);
    reveal_strlit("/audio/level/bass");
    assert("/audio/level/bass"@.len() == 17);
    reveal_strlit("/audio/level/mid");
    assert("/audio/level/mid"@.len() == 16);
    reveal_strlit("/audio/level/midhigh");
    assert("/audio/level/midhigh"@.len() == 20);
    reveal_strlit("/audio/level/high");
    assert("/audio/level/high"@.len() == 17);
    reveal_strlit("/audio/hits/all");
    assert("/audio/hits/all"@.len() == 15);
    reveal_strlit("/audio/hits/bass");
    assert("/audio/hits/bass"@.len() == 16);
    reveal_strlit("/audio/hits/mid");
    assert("/audio/hits/mid"@.len() == 15);
    reveal_strlit("/audio/hits/midhigh");
    assert("/audio/hits/midhigh"@.len() == 19);
    reveal_strlit("/audio/hits/high");
    assert("/audio/hits/high"@.len() == 16);
    reveal_strlit("/audio/presence/all");
    assert("/audio/presence/all"@.len() == 19);
    reveal_strlit("/audio/presence/bass");
    assert("/audio/presence/bass"@.len() == 20);
    reveal_strlit("/audio/presence/mid");
    assert("/audio/presence/mid"@.len() == 19);
    reveal_strlit("/audio/presence/midhigh");
    assert("/audio/presence/midhigh"@.len() == 23);
    reveal_strlit("/audio/presence/high");
    assert("/audio/presence/high"@.len() == 20);
    reveal_strlit("/audio/beat/onbeat");
    assert("/audio/beat/onbeat"@.len() == 18);
    reveal_strlit("/audio/bpm/bpm");
    assert("/audio/bpm/bpm"@.len() == 14);
    reveal_strlit("/audio/bpm/bpmconfidence");
    assert("/audio/bpm/bpmconfidence"@.len() == 24);
    reveal_strlit("/audio/energy/intensity");
    assert("/audio/energy/intensity"@.len() == 23);
    assert("/audio/energy/intensity"@[7] != "/audio/presence/midhigh"@[7]);
}

/// A message on any other address changes nothing, whatever its arguments.
pub proof fn lemma_other_addresses_change_nothing(
    frame: AudioFrame,
    message: crate::osc::MessageView,
)
    requires
        message.addr != "/audio/level/all"@,
        message.addr != "/audio/level/bass"@,
        message.addr != "/audio/level/mid"@,
        message.addr != "/audio/level/midhigh"@,
        message.addr != "/audio/level/high"@,
        message.addr != "/audio/hits/all"@,
        message.addr != "/audio/hits/bass"@,
        message.addr != "/audio/hits/mid"@,
        message.addr != "/audio/hits/midhigh"@,
        message.addr != "/audio/hits/high"@,
        message.addr != "/audio/presence/all"@,
        message.addr != "/audio/presence/bass"@,
        message.addr != "/audio/presence/mid"@,
        message.addr != "/audio/presence/midhigh"@,
        message.addr != "/audio/presence/high"@,
        message.addr != "/audio/beat/onbeat"@,
        message.addr != "/audio/bpm/bpm"@,
        message.addr != "/audio/bpm/bpmconfidence"@,
        message.addr != "/audio/energy/intensity"@,
    ensures
        applied(frame, message) == frame,
{
}

/// What a message does depends on its address and its number alone.
pub proof fn lemma_address_and_number_decide(
    frame: AudioFrame,
    message: crate::osc::MessageView,
    v: Single,
)
    requires
        number_of(message.args) == Some(v),
    ensures
        applied(frame, message) == applied(frame, number_message(message.addr, v)),
{
}

/// No message leaves a frame as it is, and one message is applied by itself.
pub proof fn lemma_few_messages(frame: AudioFrame, message: crate::osc::MessageView)
    ensures
        applied_all(frame, Seq::empty()) == frame,
        applied_all(frame, seq![message]) == applied(frame, message),
{
    let one = seq![message];
    assert(one.drop_last() =~= Seq::empty());
    assert(applied_all(frame, one.drop_last()) == frame);
}

/// What messages do does not depend on the time of the frame.
pub proof fn lemma_time_does_not_matter(
    frame: AudioFrame,
    t: crate::binary32::Double,
    messages: Seq<crate::osc::MessageView>,
)
    ensures
        applied_all(AudioFrame { t, ..frame }, messages) == (AudioFrame {
            t,
            ..applied_all(frame, messages)
        }),
    decreases messages.len(),
{
    if messages.len() > 0 {
        lemma_time_does_not_matter(frame, t, messages.drop_last());
    }
}

/// The texts of the errors: what failed, and the text of the cause.
pub proof fn lemma_ingress_error_texts(
    io: std::io::Error,
    decode: rosc::OscError,
    cause: Seq<char>,
)
    ensures
        ingress_error_text(IngressError::Io(io), cause) == "UDP I/O error: "@ + cause,
        ingress_error_text(IngressError::Decode(decode), cause) == "OSC decode error: "@ + cause,
{
}

} // verus!
