//! From datagrams to published frames.

use vstd::prelude::*;

use crate::binary32::Double;
use crate::bus::Bus;
use crate::frame::AudioFrameBuilder;
use crate::ingress::{ingest, IngressError};
use crate::mapping::map_m1;
use crate::osc::Packet;
use crate::types::{AudioFrame, Zone};

verus! {

/// Takes datagrams in, maps the audio to its zones and publishes the frames.
#[derive(Debug)]
pub struct Engine {
    builder: AudioFrameBuilder,
    zones: Vec<Zone>,
    tick: u64,
}

/// The state of an engine.
pub struct EngineState {
    /// The audio heard so far.
    pub audio: AudioFrame,
    /// The zones that are lit.
    pub zones: Seq<Zone>,
    /// The tick of the frame that was published last.
    pub tick: u64,
}

impl View for Engine {
    type V = EngineState;

    closed spec fn view(&self) -> EngineState {
        EngineState { audio: self.builder.frame(), zones: self.zones@, tick: self.tick }
    }
}

/// A time, if it can be one: finite and not negative.
pub open spec fn usable_time(t: Double) -> bool {
    t.finite() && t.at_least_zero()
}

impl EngineState {
    /// The audio after a packet that arrived at time `t`.
    pub open spec fn heard(self, t: Double, packet: crate::osc::PacketView) -> AudioFrame {
        let timed = if usable_time(t) {
            AudioFrame { t, ..self.audio }
        } else {
            self.audio
        };
        crate::ingress::applied_all(timed, crate::osc::messages(packet))
    }
}

impl Engine {
    /// An engine that has heard nothing.
    pub fn new(zones: Vec<Zone>) -> (result: Engine)
        ensures
            result@ == (EngineState { audio: AudioFrame::initial(), zones: zones@, tick: 0 }),
    {
        Engine { builder: AudioFrameBuilder::new(), zones, tick: 0 }
    }

    /// Takes in a datagram that arrived at time `t` and publishes the frame of
    /// the next tick. The packet is handed back for inspection. A datagram that
    /// is no packet changes nothing.
    ///
    /// The ticks count the published frames; they stay at the largest number
    /// there is if it should ever be reached.
    pub fn handle(&mut self, bytes: &[u8], t: Double, bus: &mut Bus) -> (result: Result<
        Packet,
        IngressError,
    >)
        ensures
            match crate::osc::decoding(bytes@) {
                Ok(packet) => {
                    &&& result is Ok
                    &&& result->Ok_0@ == packet
                    &&& final(self)@ == (EngineState {
                        audio: old(self)@.heard(t, packet),
                        zones: old(self)@.zones,
                        tick: if old(self)@.tick < u64::MAX {
                            (old(self)@.tick + 1) as u64
                        } else {
                            u64::MAX
                        },
                    })
                    &&& final(bus).identity() == old(bus).identity()
                    &&& final(bus).frames() == old(bus).frames()
                    &&& final(bus).published() == old(bus).published() + 1
                    &&& final(bus).latest().tick == final(self)@.tick
                    &&& final(bus).latest().t == final(self)@.audio.t
                    &&& final(bus).latest().zones.well_formed()
                    &&& forall|id: Seq<char>|
                        crate::mapping::is_mapped(
                            #[trigger] final(bus).latest().zones.payload(id),
                            crate::mapping::strip_color(final(self)@.audio),
                            final(self)@.zones,
                            id,
                        )
                },
                Err(error) => {
                    &&& result is Err
                    &&& result->Err_0 == IngressError::Decode(error)
                    &&& final(self)@ == old(self)@
                    &&& final(bus).identity() == old(bus).identity()
                    &&& final(bus).frames() == old(bus).frames()
                    &&& final(bus).published() == old(bus).published()
                },
            },
    {
        let mut builder = self.builder.clone();
        builder.set_t(t);
        match ingest(bytes, &mut builder) {
            Ok((audio, packet)) => {
                self.builder = builder;
                if self.tick < u64::MAX {
                    self.tick = self.tick + 1;
                }
                bus.publish(map_m1(&audio, self.zones.as_slice(), self.tick));
                Ok(packet)
            },
            Err(error) => Err(error),
        }
    }
}

/// A time counts if it is finite and not negative.
pub proof fn lemma_usable_times(t: Double)
    ensures
        usable_time(t) <==> t.bits < 0x7ff0_0000_0000_0000 || t.bits == 0x8000_0000_0000_0000,
{
}

/// A packet is applied to the audio heard so far, and the time of the audio is
/// the time of arrival if that can be one.
pub proof fn lemma_packets_are_heard(state: EngineState, t: Double, packet: crate::osc::PacketView)
    requires
        state.audio.legal(),
    ensures
        usable_time(t) ==> state.heard(t, packet).t == t,
        !usable_time(t) ==> state.heard(t, packet).t == state.audio.t,
        state.heard(t, packet).legal(),
        (AudioFrame { t: state.audio.t, ..state.heard(t, packet) })
            == crate::ingress::applied_all(state.audio, crate::osc::messages(packet)),
{
    let messages = crate::osc::messages(packet);
    let timed = if usable_time(t) {
        AudioFrame { t, ..state.audio }
    } else {
        state.audio
    };
    crate::ingress::lemma_messages_keep_frames_legal(timed, messages);
    crate::ingress::lemma_messages_keep_frames_legal(state.audio, messages);
    crate::ingress::lemma_time_does_not_matter(state.audio, timed.t, messages);
}

} // verus!
