//! Accumulation of audio values into frames.
//!
//! Each audio variable arrives on its own. The builder keeps the latest value
//! of each, moved into its legal range, and a frame is taken from it whenever
//! one is wanted.

use vstd::prelude::*;

use crate::binary32::{Double, Single, ONE_BITS};
use crate::types::{AudioFrame, BandValues};

verus! {

/// The pattern of the slowest tempo, 50 beats per minute.
pub const BPM_MIN: u32 = 0x4248_0000;

/// The pattern of the fastest tempo, 220 beats per minute.
pub const BPM_MAX: u32 = 0x435c_0000;

/// The pattern of the tempo before one is known, 120 beats per minute.
pub const BPM_DEFAULT: u32 = 0x42f0_0000;

/// A value moved into the range from 0 to 1; what is not a number is 0.
pub open spec fn unit(v: Single) -> Single {
    if v.not_a_number() {
        Single { bits: 0 }
    } else {
        v.clamped(Single { bits: 0 }, Single { bits: ONE_BITS })
    }
}

/// A tempo moved into its range; what is not a number is the slowest tempo.
pub open spec fn tempo(v: Single) -> Single {
    if v.not_a_number() {
        Single { bits: BPM_MIN }
    } else {
        v.clamped(Single { bits: BPM_MIN }, Single { bits: BPM_MAX })
    }
}

/// Whether a value is a number from 0 to 1.
pub open spec fn in_unit(v: Single) -> bool {
    v.within(Single { bits: 0 }, Single { bits: ONE_BITS })
}

impl BandValues {
    /// Whether every value is from 0 to 1.
    pub open spec fn legal(self) -> bool {
        &&& in_unit(self.whole)
        &&& in_unit(self.bass)
        &&& in_unit(self.mid)
        &&& in_unit(self.mid_high)
        &&& in_unit(self.high)
    }

    /// These values with one band set.
    pub open spec fn with_band(self, band: Band, v: Single) -> BandValues {
        match band {
            Band::Whole => BandValues { whole: v, ..self },
            Band::Bass => BandValues { bass: v, ..self },
            Band::Mid => BandValues { mid: v, ..self },
            Band::MidHigh => BandValues { mid_high: v, ..self },
            Band::High => BandValues { high: v, ..self },
        }
    }
}

impl AudioFrame {
    /// Whether every value is in its documented range.
    pub open spec fn legal(self) -> bool {
        &&& self.t.finite() && self.t.at_least_zero()
        &&& self.bpm.within(Single { bits: BPM_MIN }, Single { bits: BPM_MAX })
        &&& in_unit(self.bpm_confidence)
        &&& in_unit(self.beat_phase)
        &&& in_unit(self.on_beat)
        &&& self.levels.legal()
        &&& self.hits.legal()
        &&& self.presence.legal()
        &&& in_unit(self.intensity)
        &&& in_unit(self.fade)
    }

    /// The frame before any value has arrived.
    pub open spec fn initial() -> AudioFrame {
        let zero = Single { bits: 0 };
        AudioFrame {
            t: Double { bits: 0 },
            bpm: Single { bits: BPM_DEFAULT },
            bpm_confidence: zero,
            beat_phase: zero,
            on_beat: zero,
            levels: BandValues::silent(),
            hits: BandValues::silent(),
            presence: BandValues::silent(),
            intensity: zero,
            fade: Single { bits: ONE_BITS },
        }
    }
}

/// Which frequency band a value belongs to.
#[derive(Clone, Copy, Debug, Eq, PartialEq, Structural)]
pub enum Band {
    /// Aggregate across all bands.
    Whole,
    /// Bass band.
    Bass,
    /// Mid band.
    Mid,
    /// Mid-high band.
    MidHigh,
    /// High band.
    High,
}

/// Moves a value into the range from 0 to 1.
pub fn clamp_unit(v: Single) -> (result: Single)
    ensures
        result == unit(v),
        in_unit(result),
{
    if v.is_nan() {
        Single { bits: 0 }
    } else {
        v.clamp_to(Single { bits: 0 }, Single { bits: ONE_BITS })
    }
}

/// Moves a tempo into its range.
fn clamp_tempo(v: Single) -> (result: Single)
    ensures
        result == tempo(v),
        result.within(Single { bits: BPM_MIN }, Single { bits: BPM_MAX }),
{
    if v.is_nan() {
        Single { bits: BPM_MIN }
    } else {
        v.clamp_to(Single { bits: BPM_MIN }, Single { bits: BPM_MAX })
    }
}

/// Sets one band to a value moved into the range from 0 to 1.
fn set_band(bands: &mut BandValues, band: Band, v: Single)
    ensures
        *final(bands) == old(bands).with_band(band, unit(v)),
        old(bands).legal() ==> final(bands).legal(),
{
    let value = clamp_unit(v);
    match band {
        Band::Whole => {
            bands.whole = value;
        },
        Band::Bass => {
            bands.bass = value;
        },
        Band::Mid => {
            bands.mid = value;
        },
        Band::MidHigh => {
            bands.mid_high = value;
        },
        Band::High => {
            bands.high = value;
        },
    }
}

/// Accumulates audio values and hands out frames.
///
/// Every value is kept until a newer one arrives, so a frame is complete even
/// if some values were not updated since the last one. Whatever is set, the
/// frames are legal.
#[derive(Debug)]
pub struct AudioFrameBuilder {
    current: AudioFrame,
}

impl AudioFrameBuilder {
    /// The frame that would be taken now.
    pub closed spec fn frame(&self) -> AudioFrame {
        self.current
    }

    /// Every value is in its documented range.
    #[verifier::type_invariant]
    spec fn in_range(&self) -> bool {
        self.current.legal()
    }

    /// A builder to which nothing has been fed.
    pub fn new() -> (result: AudioFrameBuilder)
        ensures
            result.frame() == AudioFrame::initial(),
    {
        let zero = Single { bits: 0 };
        let silent = BandValues { whole: zero, bass: zero, mid: zero, mid_high: zero, high: zero };
        AudioFrameBuilder {
            current: AudioFrame {
                t: Double { bits: 0 },
                bpm: Single { bits: BPM_DEFAULT },
                bpm_confidence: zero,
                beat_phase: zero,
                on_beat: zero,
                levels: silent,
                hits: silent,
                presence: silent,
                intensity: zero,
                fade: Single { bits: ONE_BITS },
            },
        }
    }

    /// Sets the time in seconds since engine start. A time that is negative,
    /// infinite or not a number is ignored.
    pub fn set_t(&mut self, t: Double)
        ensures
            final(self).frame() == if t.finite() && t.at_least_zero() {
                AudioFrame { t, ..old(self).frame() }
            } else {
                old(self).frame()
            },
    {
        proof {
            use_type_invariant(&*self);
        }
        if t.is_finite_and_at_least_zero() {
            self.current.t = t;
        }
    }

    /// Sets the tempo, moved into its range.
    pub fn set_bpm(&mut self, bpm: Single)
        ensures
            final(self).frame() == (AudioFrame { bpm: tempo(bpm), ..old(self).frame() }),
    {
        proof {
            use_type_invariant(&*self);
        }
        let value = clamp_tempo(bpm);
        self.current.bpm = value;
    }

    /// Sets the confidence in the tempo.
    pub fn set_bpm_confidence(&mut self, v: Single)
        ensures
            final(self).frame() == (AudioFrame { bpm_confidence: unit(v), ..old(self).frame() }),
    {
        proof {
            use_type_invariant(&*self);
        }
        let value = clamp_unit(v);
        self.current.bpm_confidence = value;
    }

    /// Sets the phase within the beat.
    pub fn set_beat_phase(&mut self, v: Single)
        ensures
            final(self).frame() == (AudioFrame { beat_phase: unit(v), ..old(self).frame() }),
    {
        proof {
            use_type_invariant(&*self);
        }
        let value = clamp_unit(v);
        self.current.beat_phase = value;
    }

    /// Sets the beat envelope.
    pub fn set_on_beat(&mut self, v: Single)
        ensures
            final(self).frame() == (AudioFrame { on_beat: unit(v), ..old(self).frame() }),
    {
        proof {
            use_type_invariant(&*self);
        }
        let value = clamp_unit(v);
        self.current.on_beat = value;
    }

    /// Sets the level of a band.
    pub fn set_level(&mut self, band: Band, v: Single)
        ensures
            final(self).frame() == (AudioFrame {
                levels: old(self).frame().levels.with_band(band, unit(v)),
                ..old(self).frame()
            }),
    {
        proof {
            use_type_invariant(&*self);
        }
        let mut bands = self.current.levels;
        set_band(&mut bands, band, v);
        self.current.levels = bands;
    }

    /// Sets the transient hits of a band.
    pub fn set_hit(&mut self, band: Band, v: Single)
        ensures
            final(self).frame() == (AudioFrame {
                hits: old(self).frame().hits.with_band(band, unit(v)),
                ..old(self).frame()
            }),
    {
        proof {
            use_type_invariant(&*self);
        }
        let mut bands = self.current.hits;
        set_band(&mut bands, band, v);
        self.current.hits = bands;
    }

    /// Sets the presence of a band.
    pub fn set_presence(&mut self, band: Band, v: Single)
        ensures
            final(self).frame() == (AudioFrame {
                presence: old(self).frame().presence.with_band(band, unit(v)),
                ..old(self).frame()
            }),
    {
        proof {
            use_type_invariant(&*self);
        }
        let mut bands = self.current.presence;
        set_band(&mut bands, band, v);
        self.current.presence = bands;
    }

    /// Sets the intensity.
    pub fn set_intensity(&mut self, v: Single)
        ensures
            final(self).frame() == (AudioFrame { intensity: unit(v), ..old(self).frame() }),
    {
        proof {
            use_type_invariant(&*self);
        }
        let value = clamp_unit(v);
        self.current.intensity = value;
    }

    /// Sets the fade envelope.
    pub fn set_fade(&mut self, v: Single)
        ensures
            final(self).frame() == (AudioFrame { fade: unit(v), ..old(self).frame() }),
    {
        proof {
            use_type_invariant(&*self);
        }
        let value = clamp_unit(v);
        self.current.fade = value;
    }

    /// The current frame. The builder keeps every value.
    pub fn snapshot(&mut self) -> (result: AudioFrame)
        ensures
            result == old(self).frame(),
            result.legal(),
            final(self).frame() == old(self).frame(),
    {
        proof {
            use_type_invariant(&*self);
        }
        self.current
    }

    /// The current tempo.
    pub fn bpm(&self) -> (result: Single)
        ensures
            result == self.frame().bpm,
    {
        self.current.bpm
    }
}

impl Default for AudioFrameBuilder {
    /// A builder to which nothing has been fed.
    fn default() -> (result: AudioFrameBuilder)
        ensures
            result.frame() == AudioFrame::initial(),
    {
        AudioFrameBuilder::new()
    }
}

impl Clone for AudioFrameBuilder {
    fn clone(&self) -> (result: AudioFrameBuilder)
        ensures
            result.frame() == self.frame(),
    {
        proof {
            use_type_invariant(self);
        }
        AudioFrameBuilder { current: self.current }
    }
}

/// A tempo from 50 to 220 is kept bit for bit; a lower one becomes 50, a higher
/// one 220, and what is not a number 50.
pub proof fn lemma_tempo_range(v: Single)
    ensures
        0x4248_0000 <= v.bits <= 0x435c_0000 ==> tempo(v) == v,
        v.bits < 0x4248_0000 ==> tempo(v).bits == 0x4248_0000,
        0x435c_0000 < v.bits <= 0x7f80_0000 ==> tempo(v).bits == 0x435c_0000,
        v.bits > 0x7f80_0000 ==> tempo(v).bits == 0x4248_0000,
{
}

/// A value from 0 to 1 is kept bit for bit, a higher one becomes 1, and a
/// negative one or what is not a number becomes 0. Negative zero is kept.
pub proof fn lemma_unit_range(v: Single)
    ensures
        v.bits <= 0x3f80_0000 ==> unit(v) == v,
        v.bits == 0x8000_0000 ==> unit(v) == v,
        0x3f80_0000 < v.bits <= 0x7f80_0000 ==> unit(v).bits == 0x3f80_0000,
        0x7f80_0000 < v.bits && v.bits != 0x8000_0000 ==> unit(v).bits == 0,
        in_unit(v) <==> v.bits <= 0x3f80_0000 || v.bits == 0x8000_0000,
{
}

/// A band that was set reads back, and the other bands keep what they had.
pub proof fn lemma_bands_read_back(bands: BandValues, v: Single)
    ensures
        bands.with_band(Band::Whole, v) == (BandValues { whole: v, ..bands }),
        bands.with_band(Band::Bass, v) == (BandValues { bass: v, ..bands }),
        bands.with_band(Band::Mid, v) == (BandValues { mid: v, ..bands }),
        bands.with_band(Band::MidHigh, v) == (BandValues { mid_high: v, ..bands }),
        bands.with_band(Band::High, v) == (BandValues { high: v, ..bands }),
{
}

/// A frame is legal if the time is finite and not negative, the tempo is from
/// 50 to 220, and every other value is from 0 to 1.
pub proof fn lemma_legal_frames(frame: AudioFrame)
    ensures
        frame.legal() <==> {
            &&& frame.t.bits < 0x7ff0_0000_0000_0000 || frame.t.bits == 0x8000_0000_0000_0000
            &&& 0x4248_0000 <= frame.bpm.bits <= 0x435c_0000
            &&& in_unit(frame.bpm_confidence)
            &&& in_unit(frame.beat_phase)
            &&& in_unit(frame.on_beat)
            &&& in_unit(frame.intensity)
            &&& in_unit(frame.fade)
            &&& in_unit(frame.levels.whole) && in_unit(frame.levels.bass)
            &&& in_unit(frame.levels.mid) && in_unit(frame.levels.mid_high)
            &&& in_unit(frame.levels.high)
            &&& in_unit(frame.hits.whole) && in_unit(frame.hits.bass)
            &&& in_unit(frame.hits.mid) && in_unit(frame.hits.mid_high)
            &&& in_unit(frame.hits.high)
            &&& in_unit(frame.presence.whole) && in_unit(frame.presence.bass)
            &&& in_unit(frame.presence.mid) && in_unit(frame.presence.mid_high)
            &&& in_unit(frame.presence.high)
        },
{
}

/// Before anything arrives the tempo is 120, the fade is 1 and all else is 0.
pub proof fn lemma_initial_values()
    ensures
        ({
            let frame = AudioFrame::initial();
            &&& frame.t.bits == 0
            &&& frame.bpm.bits == 0x42f0_0000
            &&& frame.fade.bits == 0x3f80_0000
            &&& frame.bpm_confidence.bits == 0 && frame.beat_phase.bits == 0
            &&& frame.on_beat.bits == 0 && frame.intensity.bits == 0
            &&& forall|bands: BandValues|
                #![trigger bands.whole]
                bands == frame.levels || bands == frame.hits || bands == frame.presence ==> {
                    &&& bands.whole.bits == 0 && bands.bass.bits == 0 && bands.mid.bits == 0
                    &&& bands.mid_high.bits == 0 && bands.high.bits == 0
                }
        }),
{
}

} // verus!
