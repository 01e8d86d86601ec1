//! The vocabulary of the pipeline: audio frames, zones and their payloads.

use std::collections::HashMap;
use vstd::prelude::*;

use crate::binary32::{Double, Single};
use crate::zone_map::ZoneMap;

verus! {

/// The audio analysis state at a point in time.
#[derive(Clone, Copy, Debug)]
pub struct AudioFrame {
    /// Monotonic seconds since engine start.
    pub t: Double,
    /// Estimated beats per minute, from 50 to 220.
    pub bpm: Single,
    /// Confidence in the tempo estimate, from 0 to 1.
    pub bpm_confidence: Single,
    /// Phase within the current beat, from 0 to 1.
    pub beat_phase: Single,
    /// Beat envelope, from 0 to 1: spikes on a beat and decays after it.
    pub on_beat: Single,
    /// Signal level of each band.
    pub levels: BandValues,
    /// Transient hits of each band.
    pub hits: BandValues,
    /// Sustained presence of each band.
    pub presence: BandValues,
    /// Macro intensity, a slow accumulator from 0 to 1.
    pub intensity: Single,
    /// Fade envelope, from 0 to 1.
    pub fade: Single,
}

/// One value for each frequency band, from 0 to 1.
#[derive(Clone, Copy, Debug)]
pub struct BandValues {
    /// Aggregate across all bands.
    pub whole: Single,
    /// Bass band.
    pub bass: Single,
    /// Mid band.
    pub mid: Single,
    /// Mid-high band.
    pub mid_high: Single,
    /// High band.
    pub high: Single,
}

impl BandValues {
    /// All bands silent.
    pub open spec fn silent() -> BandValues {
        let zero = Single { bits: 0 };
        BandValues { whole: zero, bass: zero, mid: zero, mid_high: zero, high: zero }
    }
}

impl Default for BandValues {
    /// All bands silent.
    fn default() -> (result: BandValues)
        ensures
            result == BandValues::silent(),
    {
        let zero = Single { bits: 0 };
        BandValues { whole: zero, bass: zero, mid: zero, mid_high: zero, high: zero }
    }
}

/// Scene and palette state of the visuals.
#[derive(Clone, Debug)]
pub struct SceneState {
    /// Name of the scene.
    pub scene_name: String,
    /// Low-end palette color (background, bass).
    pub low_color: Rgb,
    /// High-end palette color (accent, treble).
    pub high_color: Rgb,
    /// Other scene controls by name.
    pub controls: HashMap<String, Single>,
}

/// A linear color, each channel from 0 to 1.
///
/// Output adapters apply the curve that their devices want.
#[derive(Clone, Copy, Debug, PartialEq)]
pub struct Rgb {
    /// Red channel.
    pub r: Single,
    /// Green channel.
    pub g: Single,
    /// Blue channel.
    pub b: Single,
}

impl Rgb {
    /// All channels off.
    pub open spec fn black() -> Rgb {
        let zero = Single { bits: 0 };
        Rgb { r: zero, g: zero, b: zero }
    }
}

impl Default for Rgb {
    /// All channels off.
    fn default() -> (result: Rgb)
        ensures
            result == Rgb::black(),
    {
        let zero = Single { bits: 0 };
        Rgb { r: zero, g: zero, b: zero }
    }
}

/// A group of pixels or channels that is addressed as a unit.
#[derive(Debug)]
pub struct Zone {
    /// Stable identifier of the zone.
    pub id: ZoneId,
    /// What kind of output the zone is.
    pub kind: ZoneKind,
    /// Size and shape of the zone.
    pub size: ZoneSize,
}

impl Clone for Zone {
    fn clone(&self) -> (result: Zone)
        ensures
            result.id@ == self.id@,
            result.kind == self.kind,
            result.size == self.size,
    {
        Zone { id: self.id.clone(), kind: self.kind, size: self.size }
    }
}

/// Stable identifier of a zone.
#[derive(Debug, Eq, PartialEq, Hash)]
pub struct ZoneId(pub String);

impl View for ZoneId {
    type V = Seq<char>;

    open spec fn view(&self) -> Seq<char> {
        self.0@
    }
}

impl Clone for ZoneId {
    fn clone(&self) -> (result: ZoneId)
        ensures
            result@ == self@,
    {
        ZoneId(self.0.clone())
    }
}

impl ZoneId {
    /// Whether two identifiers are the same text.
    pub fn same_as(&self, other: &ZoneId) -> (result: bool)
        ensures
            result == (self@ == other@),
    {
        self.0 == other.0
    }
}

/// What kind of output a zone is.
#[derive(Clone, Copy, Debug, Eq, PartialEq, Structural)]
pub enum ZoneKind {
    /// Addressable pixel strip, one row of lights.
    PixelStrip,
    /// Addressable pixel grid, a matrix of lights.
    PixelGrid,
    /// A single addressable light.
    Fixture,
    /// A full raw universe of 512 channels.
    DmxUniverse,
    /// A laser vector path.
    LaserVector,
}

/// Size and shape of a zone.
#[allow(inconsistent_fields)]
#[derive(Clone, Copy, Debug, Eq, PartialEq, Structural)]
pub enum ZoneSize {
    /// One-dimensional pixel strip.
    Strip {
        /// Pixels along the strip.
        count: u32,
    },
    /// Two-dimensional pixel grid.
    Grid {
        /// Width in pixels.
        w: u32,
        /// Height in pixels.
        h: u32,
    },
    /// Raw channels.
    Channels {
        /// Number of channels.
        count: u16,
    },
    /// One light.
    Single,
}

/// What the mapping layer resolved for one tick.
#[derive(Clone, Debug)]
pub struct ResolvedFrame {
    /// Monotonic tick counter of the engine.
    pub tick: u64,
    /// Time of this frame in seconds since engine start.
    pub t: Double,
    /// Payloads by zone.
    pub zones: ZoneMap,
}

impl Default for ResolvedFrame {
    /// The frame of tick zero at time zero, with no payload.
    fn default() -> (result: ResolvedFrame)
        ensures
            result.tick == 0,
            result.t == (Double { bits: 0 }),
            result.zones.entries() == Seq::<(Seq<char>, ZonePayload)>::empty(),
            result.zones.well_formed(),
    {
        ResolvedFrame { tick: 0, t: Double { bits: 0 }, zones: ZoneMap::new() }
    }
}

/// What is rendered to one zone at one tick.
#[derive(Clone, Debug)]
pub enum ZonePayload {
    /// A color for each pixel of a strip or grid, row by row.
    Pixels(Vec<Rgb>),
    /// Raw channel bytes.
    Channels(Vec<u8>),
    /// Color and intensity of a single light.
    Fixture(Rgb, Single),
    /// Points of a laser path.
    LaserPoints(Vec<LaserPoint>),
}

/// A point of a laser path.
#[derive(Clone, Copy, Debug)]
pub struct LaserPoint {
    /// X coordinate, centered on 0.
    pub x: i16,
    /// Y coordinate, centered on 0.
    pub y: i16,
    /// Red channel.
    pub r: u16,
    /// Green channel.
    pub g: u16,
    /// Blue channel.
    pub b: u16,
    /// Whether the beam is off at this point.
    pub blank: bool,
}

/// A span of time.
#[derive(Clone, Copy, Debug, Eq, PartialEq, Structural)]
pub struct Period {
    /// Whole seconds.
    pub secs: u64,
    /// Nanoseconds beyond the whole seconds.
    pub nanos: u32,
}

impl Period {
    /// The span of `micros` microseconds.
    pub open spec fn of_micros(micros: int) -> Period {
        Period { secs: (micros / 1_000_000) as u64, nanos: (micros % 1_000_000 * 1000) as u32 }
    }

    /// The span of `micros` microseconds.
    pub fn from_micros(micros: u64) -> (result: Period)
        ensures
            result == Period::of_micros(micros as int),
    {
        Period { secs: micros / 1_000_000, nanos: (micros % 1_000_000) as u32 * 1000 }
    }
}

/// A span of microseconds is that many thousand nanoseconds, with less than a
/// second beyond the whole seconds.
pub proof fn lemma_period_of_micros(micros: int)
    requires
        0 <= micros <= u64::MAX,
    ensures
        Period::of_micros(micros).secs * 1_000_000_000 + Period::of_micros(micros).nanos == micros
            * 1000,
        Period::of_micros(micros).nanos < 1_000_000_000,
{
}

/// Silence and black are zero in every band and channel.
pub proof fn lemma_silent_and_black()
    ensures
        BandValues::silent().whole.bits == 0,
        BandValues::silent().bass.bits == 0,
        BandValues::silent().mid.bits == 0,
        BandValues::silent().mid_high.bits == 0,
        BandValues::silent().high.bits == 0,
        Rgb::black().r.bits == 0,
        Rgb::black().g.bits == 0,
        Rgb::black().b.bits == 0,
{
}

} // verus!
