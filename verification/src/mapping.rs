//! The rule that turns audio into light.

use vstd::prelude::*;
use vstd::arithmetic::mul::*;
use vstd::arithmetic::power2::*;

use crate::binary32::{Single, ONE_BITS};
use crate::types::{AudioFrame, ResolvedFrame, Rgb, Zone, ZoneKind, ZonePayload, ZoneSize};
use crate::zone_map::ZoneMap;

verus! {

/// The pattern of the flash that a full beat adds to every channel: 0.3.
pub const FLASH_BITS: u32 = 0x3e99_999a;

/// A value moved into the range from 0 to 1. What is not a number stays.
pub open spec fn clamped_unit(v: Single) -> Single {
    v.clamped(Single { bits: 0 }, Single { bits: ONE_BITS })
}

/// The color channel that a band drives: its level scaled by the intensity,
/// plus a flash that follows the beat envelope.
pub open spec fn channel(level: Single, intensity: Single, on_beat: Single) -> Single {
    let flash = Single { bits: FLASH_BITS }.product(clamped_unit(on_beat));
    clamped_unit(level.product(clamped_unit(intensity)).sum(flash))
}

/// The color of a strip: bass is red, mid is green, high is blue.
pub open spec fn strip_color(audio: AudioFrame) -> Rgb {
    Rgb {
        r: channel(audio.levels.bass, audio.intensity, audio.on_beat),
        g: channel(audio.levels.mid, audio.intensity, audio.on_beat),
        b: channel(audio.levels.high, audio.intensity, audio.on_beat),
    }
}

/// The pixels of a zone, if it is a strip.
pub open spec fn strip_pixels(zone: Zone) -> Option<nat> {
    match (zone.kind, zone.size) {
        (ZoneKind::PixelStrip, ZoneSize::Strip { count }) => Some(count as nat),
        _ => None,
    }
}

/// The pixels of the strip `id`: those of the last strip in the list that has
/// this identifier.
pub open spec fn strip_length(zones: Seq<Zone>, id: Seq<char>) -> Option<nat>
    decreases zones.len(),
{
    if zones.len() == 0 {
        None
    } else if zones.last().id@ == id && strip_pixels(zones.last()) is Some {
        strip_pixels(zones.last())
    } else {
        strip_length(zones.drop_last(), id)
    }
}

/// Whether `payload` is what the zone `id` gets: a uniform color if it is a
/// strip, else nothing.
pub open spec fn is_mapped(
    payload: Option<ZonePayload>,
    color: Rgb,
    zones: Seq<Zone>,
    id: Seq<char>,
) -> bool {
    match strip_length(zones, id) {
        Some(count) => payload matches Some(ZonePayload::Pixels(pixels)) && pixels@ == Seq::new(
            count,
            |i: int| color,
        ),
        None => payload is None,
    }
}

/// Maps an audio frame to the zones.
///
/// Every strip gets one color along its whole length; a zone that is no strip
/// gets no payload. The tick is the caller's, the time that of the audio.
pub fn map_m1(audio: &AudioFrame, zones: &[Zone], tick: u64) -> (result: ResolvedFrame)
    ensures
        result.tick == tick,
        result.t == audio.t,
        result.zones.well_formed(),
        forall|id: Seq<char>|
            is_mapped(#[trigger] result.zones.payload(id), strip_color(*audio), zones@, id),
{
    let mut payloads = ZoneMap::new();
    let mut i: usize = 0;
    while i < zones.len()
        invariant
            i <= zones@.len(),
            payloads.well_formed(),
            forall|id: Seq<char>|
                is_mapped(
                    #[trigger] payloads.payload(id),
                    strip_color(*audio),
                    zones@.take(i as int),
                    id,
                ),
        decreases zones@.len() - i,
    {
        let zone = &zones[i];
        let ghost before = payloads;
        proof {
            assert(zones@.take(i + 1).drop_last() =~= zones@.take(i as int));
        }
        if let (ZoneKind::PixelStrip, ZoneSize::Strip { count }) = (zone.kind, zone.size) {
            let pixels = build_strip_pixels(audio, count as usize);
            let ghost payload = ZonePayload::Pixels(pixels);
            payloads.insert(zone.id.clone(), ZonePayload::Pixels(pixels));
            assert forall|id: Seq<char>|
                is_mapped(
                    #[trigger] payloads.payload(id),
                    strip_color(*audio),
                    zones@.take(i + 1),
                    id,
                ) by {
                crate::zone_map::lemma_insert_then_lookup(before.entries(), zone.id@, payload, id);
                assert(is_mapped(
                    before.payload(id),
                    strip_color(*audio),
                    zones@.take(i as int),
                    id,
                ));
            }
        }
        i = i + 1;
    }
    assert(zones@.take(i as int) =~= zones@);
    ResolvedFrame { tick, t: audio.t, zones: payloads }
}

/// One channel of a strip.
fn mix(level: Single, intensity: Single, flash: Single) -> (result: Single)
    ensures
        result == clamped_unit(level.product(intensity).sum(flash)),
{
    level.times(intensity).plus(flash).clamp_to(Single { bits: 0 }, Single { bits: ONE_BITS })
}

/// The pixels of one strip.
pub fn build_strip_pixels(audio: &AudioFrame, count: usize) -> (result: Vec<Rgb>)
    ensures
        result@ == Seq::new(count as nat, |i: int| strip_color(*audio)),
{
    let zero = Single { bits: 0 };
    let one = Single { bits: ONE_BITS };
    let intensity = audio.intensity.clamp_to(zero, one);
    let flash = Single { bits: FLASH_BITS }.times(audio.on_beat.clamp_to(zero, one));
    let pixel = Rgb {
        r: mix(audio.levels.bass, intensity, flash),
        g: mix(audio.levels.mid, intensity, flash),
        b: mix(audio.levels.high, intensity, flash),
    };
    let mut pixels: Vec<Rgb> = Vec::with_capacity(count);
    let mut i: usize = 0;
    while i < count
        invariant
            i <= count,
            pixel == strip_color(*audio),
            pixels@ == Seq::new(i as nat, |j: int| strip_color(*audio)),
        decreases count - i,
    {
        pixels.push(pixel);
        i = i + 1;
    }
    pixels
}

/// Whatever the input, a channel that is a number is from 0 to 1.
pub proof fn lemma_channel_range(level: Single, intensity: Single, on_beat: Single)
    ensures
        channel(level, intensity, on_beat).not_a_number() || crate::frame::in_unit(
            channel(level, intensity, on_beat),
        ),
{
}

/// More signal, more intensity and more beat make no channel darker, so the
/// flash of a beat decays with its envelope.
pub proof fn lemma_channel_monotone(
    level: Single,
    intensity: Single,
    on_beat: Single,
    louder: Single,
    stronger: Single,
    later: Single,
)
    requires
        crate::frame::in_unit(level),
        crate::frame::in_unit(intensity),
        crate::frame::in_unit(on_beat),
        crate::frame::in_unit(louder),
        crate::frame::in_unit(stronger),
        crate::frame::in_unit(later),
        level.rank() <= louder.rank(),
        intensity.rank() <= stronger.rank(),
        on_beat.rank() <= later.rank(),
    ensures
        crate::frame::in_unit(channel(level, intensity, on_beat)),
        crate::frame::in_unit(channel(louder, stronger, later)),
        channel(level, intensity, on_beat).rank() <= channel(louder, stronger, later).rank(),
{
    let one = Single { bits: ONE_BITS };
    let flash = Single { bits: FLASH_BITS };
    crate::binary32::lemma_product_monotone(level, louder, intensity, stronger);
    crate::binary32::lemma_product_monotone(louder, one, stronger, one);
    crate::binary32::lemma_product_monotone(flash, flash, on_beat, later);
    crate::binary32::lemma_product_monotone(flash, flash, later, one);
    crate::binary32::lemma_product_with_one(one);
    crate::binary32::lemma_product_with_one(flash);
    crate::binary32::lemma_sum_monotone(
        level.product(intensity),
        louder.product(stronger),
        flash.product(on_beat),
        flash.product(later),
    );
}

/// The frames of the builder are mapped to colors whose channels are all
/// numbers from 0 to 1.
pub proof fn lemma_legal_frames_give_legal_colors(audio: AudioFrame)
    requires
        audio.legal(),
    ensures
        crate::frame::in_unit(strip_color(audio).r),
        crate::frame::in_unit(strip_color(audio).g),
        crate::frame::in_unit(strip_color(audio).b),
{
    let (i, v) = (audio.intensity, audio.on_beat);
    let (r, g, b) = (audio.levels.bass, audio.levels.mid, audio.levels.high);
    lemma_channel_monotone(r, i, v, r, i, v);
    lemma_channel_monotone(g, i, v, g, i, v);
    lemma_channel_monotone(b, i, v, b, i, v);
}

/// Without a beat, a silent band or no intensity leaves a channel dark.
pub proof fn lemma_silence_is_black(level: Single, intensity: Single, on_beat: Single)
    requires
        crate::frame::in_unit(level),
        crate::frame::in_unit(intensity),
        on_beat.rank() == 0,
        level.rank() == 0 || intensity.rank() == 0,
    ensures
        channel(level, intensity, on_beat).rank() == 0,
        !channel(level, intensity, on_beat).not_a_number(),
{
    let flash = Single { bits: FLASH_BITS };
    if level.rank() == 0 {
        crate::binary32::lemma_product_with_zero(intensity, level);
    } else {
        crate::binary32::lemma_product_with_zero(level, intensity);
    }
    crate::binary32::lemma_product_with_zero(flash, on_beat);
    crate::binary32::lemma_sum_with_zero(flash.product(on_beat), level.product(intensity));
}

/// At full intensity and between beats a channel is the level of its band.
pub proof fn lemma_bands_drive_channels(level: Single)
    requires
        crate::frame::in_unit(level),
    ensures
        channel(level, Single { bits: ONE_BITS }, Single { bits: 0 }).rank() == level.rank(),
{
    let one = Single { bits: ONE_BITS };
    let zero = Single { bits: 0 };
    let flash = Single { bits: FLASH_BITS };
    crate::binary32::lemma_product_with_one(level);
    crate::binary32::lemma_product_with_zero(flash, zero);
    crate::binary32::lemma_product_monotone(level, level, one, one);
    crate::binary32::lemma_sum_with_zero(level.product(one), flash.product(zero));
    crate::binary32::lemma_sum_commutes(level.product(one), flash.product(zero));
}

/// A full beat lifts every channel to at least the flash, however quiet the
/// input is.
pub proof fn lemma_beat_always_shows(level: Single, intensity: Single)
    requires
        crate::frame::in_unit(level),
        crate::frame::in_unit(intensity),
    ensures
        channel(level, intensity, Single { bits: ONE_BITS }).rank() >= FLASH_BITS,
{
    let one = Single { bits: ONE_BITS };
    let zero = Single { bits: 0 };
    let flash = Single { bits: FLASH_BITS };
    lemma_channel_monotone(zero, intensity, one, level, intensity, one);
    crate::binary32::lemma_product_with_zero(intensity, zero);
    crate::binary32::lemma_product_with_one(flash);
    crate::binary32::lemma_sum_with_zero(flash.product(one), zero.product(intensity));
}

/// A strip whose identifier no later strip has gets as many pixels as its own
/// count says, all of one color.
pub proof fn lemma_strips_get_all_their_pixels(
    payload: Option<ZonePayload>,
    color: Rgb,
    zones: Seq<Zone>,
    i: int,
    count: u32,
)
    requires
        0 <= i < zones.len(),
        is_mapped(payload, color, zones, zones[i].id@),
        zones[i].kind == ZoneKind::PixelStrip,
        zones[i].size == (ZoneSize::Strip { count }),
        forall|j: int|
            i < j < zones.len() && (#[trigger] zones[j]).id@ == zones[i].id@ ==> zones[j].kind
                != ZoneKind::PixelStrip || !(zones[j].size is Strip),
    ensures
        payload matches Some(ZonePayload::Pixels(pixels)) && pixels@.len() == count && forall|k: int|
            0 <= k < count ==> #[trigger] pixels@[k] == color,
    decreases zones.len(),
{
    if i < zones.len() - 1 {
        let before = zones.drop_last();
        assert(zones.last() == zones[zones.len() - 1]);
        assert(before[i] == zones[i]);
        assert forall|j: int|
            i < j < before.len() && (#[trigger] before[j]).id@ == before[i].id@ implies before[j].kind
            != ZoneKind::PixelStrip || !(before[j].size is Strip) by {
            assert(before[j] == zones[j]);
        }
        lemma_strips_get_all_their_pixels(payload, color, before, i, count);
    }
}

/// A zone gets nothing if no strip has its identifier.
pub proof fn lemma_only_strips_are_lit(
    payload: Option<ZonePayload>,
    color: Rgb,
    zones: Seq<Zone>,
    id: Seq<char>,
)
    requires
        is_mapped(payload, color, zones, id),
        forall|j: int|
            0 <= j < zones.len() && (#[trigger] zones[j]).id@ == id ==> zones[j].kind
                != ZoneKind::PixelStrip || !(zones[j].size is Strip),
    ensures
        payload is None,
    decreases zones.len(),
{
    if zones.len() > 0 {
        let before = zones.drop_last();
        assert(zones.last() == zones[zones.len() - 1]);
        assert forall|j: int|
            0 <= j < before.len() && (#[trigger] before[j]).id@ == id implies before[j].kind
            != ZoneKind::PixelStrip || !(before[j].size is Strip) by {
            assert(before[j] == zones[j]);
        }
        lemma_only_strips_are_lit(payload, color, before, id);
    }
}

/// The color depends on the bass, mid and high level, the intensity and the
/// beat alone, and each channel on one of the levels only.
pub proof fn lemma_color_depends_on_its_bands(audio: AudioFrame, other: AudioFrame)
    requires
        audio.intensity == other.intensity,
        audio.on_beat == other.on_beat,
    ensures
        audio.levels.bass == other.levels.bass ==> strip_color(audio).r == strip_color(other).r,
        audio.levels.mid == other.levels.mid ==> strip_color(audio).g == strip_color(other).g,
        audio.levels.high == other.levels.high ==> strip_color(audio).b == strip_color(other).b,
        audio.levels.bass == other.levels.mid ==> strip_color(audio).r == strip_color(other).g,
        audio.levels.bass == other.levels.high ==> strip_color(audio).r == strip_color(other).b,
{
}

/// The flash of a full beat is 3/10, to less than 2^-25.
proof fn lemma_flash_units()
    ensures
        10 * crate::rounding::magnitude_units(FLASH_BITS as nat) == 3 * pow2(149) + 4 * pow2(124),
        crate::rounding::magnitude_units(ONE_BITS as nat) == pow2(149),
{
    lemma2_to64();
    lemma_pow2_adds(23, 126);
    lemma_pow2_adds(25, 124);
    assert(crate::rounding::magnitude_units(FLASH_BITS as nat) == 10066330 * pow2(124));
    assert(pow2(25) == 0x200_0000);
}

/// The product of two numbers from 0 to 1 is at most 2^-24 off.
proof fn lemma_unit_product_error(a: Single, b: Single)
    requires
        crate::frame::in_unit(a),
        crate::frame::in_unit(b),
    ensures
        crate::frame::in_unit(a.product(b)),
        crate::rounding::distance(
            (crate::rounding::magnitude_units(a.product(b).magnitude()) * pow2(149)) as int,
            (crate::rounding::magnitude_units(a.magnitude()) * crate::rounding::magnitude_units(
                b.magnitude(),
            )) as int,
        ) <= pow2(125) * pow2(149),
{
    let one = Single { bits: ONE_BITS };
    let x = crate::rounding::magnitude_units(a.magnitude());
    let y = crate::rounding::magnitude_units(b.magnitude());
    lemma_flash_units();
    crate::rounding::lemma_units_monotone(a.magnitude(), ONE_BITS as nat);
    crate::rounding::lemma_units_monotone(b.magnitude(), ONE_BITS as nat);
    lemma_pow2_unfold(150);
    assert(x * y <= pow2(150) * pow2(149)) by (nonlinear_arith)
        requires
            x <= pow2(149),
            y <= pow2(149),
            pow2(150) == 2 * pow2(149),
    ;
    crate::rounding::lemma_rounding_error(x * y, 149);
    crate::rounding::lemma_nearest_monotone(x * y, x * y, 149);
    crate::binary32::lemma_product_monotone(a, one, b, one);
    crate::binary32::lemma_product_with_one(one);
}

/// What a channel would be without rounding and without its upper bound, in
/// tenths of 2^-298: level times intensity plus three tenths of the beat.
pub open spec fn exact_tenths(level: Single, intensity: Single, on_beat: Single) -> int {
    10 * (level.units() * intensity.units()) + 3 * (pow2(149) * on_beat.units())
}

/// For every level, intensity and beat from 0 to 1, a channel is the level times
/// the intensity plus three tenths of the beat, at most 1, to within 2^-22.
pub proof fn lemma_channel_is_the_mix(level: Single, intensity: Single, on_beat: Single)
    requires
        crate::frame::in_unit(level),
        crate::frame::in_unit(intensity),
        crate::frame::in_unit(on_beat),
    ensures
        ({
            let shown = 10 * (channel(level, intensity, on_beat).units() * pow2(149));
            let exact = exact_tenths(level, intensity, on_beat);
            let full = 10 * (pow2(149) * pow2(149));
            let error = 32 * (pow2(125) * pow2(149));
            &&& exact <= full ==> crate::rounding::distance(shown, exact) <= error
            &&& exact > full ==> full - error <= shown <= full
        }),
{
    let flash = Single { bits: FLASH_BITS };
    let p = level.product(intensity);
    let f = flash.product(on_beat);
    let s = p.sum(f);
    let c = channel(level, intensity, on_beat);
    let one = pow2(149) as int;
    let eps = pow2(125) as int;
    let zero_units = crate::rounding::magnitude_units(0);
    lemma_flash_units();
    lemma_pow2_pos(149);
    lemma_pow2_pos(125);
    lemma_pow2_pos(124);
    lemma_pow2_unfold(125);
    lemma_pow2_unfold(150);
    lemma2_to64();
    lemma_unit_product_error(level, intensity);
    lemma_unit_product_error(flash, on_beat);
    crate::rounding::lemma_units_double(0);
    lemma_at_least_zero_units(level);
    lemma_at_least_zero_units(intensity);
    lemma_at_least_zero_units(on_beat);
    lemma_at_least_zero_units(p);
    lemma_at_least_zero_units(f);
    crate::rounding::lemma_units_monotone(p.magnitude(), ONE_BITS as nat);
    crate::rounding::lemma_units_monotone(f.magnitude(), ONE_BITS as nat);
    crate::rounding::lemma_units_monotone(on_beat.magnitude(), ONE_BITS as nat);
    let total = (p.units() + f.units()) as nat;
    lemma_mul_basics(pow2(150) as int);
    lemma_mul_basics(pow2(125) as int);
    crate::rounding::lemma_rounding_error(total, 0);
    lemma_mul_basics(crate::rounding::magnitude_units(
        crate::rounding::nearest_magnitude(total, 0),
    ) as int);
    crate::rounding::lemma_nearest_monotone(total, total, 0);
    crate::binary32::lemma_sum_monotone(p, p, f, f);
    lemma_at_least_zero_units(s);
    assert(crate::rounding::distance(s.units(), p.units() + f.units()) <= eps);
    // What the clamp does to the value.
    assert(c.units() == if s.units() <= one { s.units() } else { one }) by {
        crate::rounding::lemma_units_monotone(0, s.magnitude());
        if s.magnitude() <= ONE_BITS {
            crate::rounding::lemma_units_monotone(s.magnitude(), ONE_BITS as nat);
        } else {
            crate::rounding::lemma_units_monotone(ONE_BITS as nat, s.magnitude());
        }
    }
    let (u, v) = (level.units() * intensity.units(), on_beat.units());
    let k = flash.units();
    assert(10 * (k * v) == 3 * (one * v) + 4 * (pow2(124) * v)) by (nonlinear_arith)
        requires
            10 * k == 3 * one + 4 * pow2(124),
    ;
    assert(0 <= pow2(124) * v <= pow2(124) * one) by (nonlinear_arith)
        requires
            0 <= v <= one,
    ;
    assert(2 * (pow2(124) * one) == eps * one) by (nonlinear_arith)
        requires
            eps == 2 * pow2(124),
    ;
    lemma_mul_is_commutative(one, v);
    assert(crate::rounding::distance(s.units() * one, (p.units() + f.units()) * one) <= eps * one)
        by {
        let d = s.units() - (p.units() + f.units());
        assert(-(eps * one) <= d * one <= eps * one) by (nonlinear_arith)
            requires
                -eps <= d <= eps,
                one > 0,
        ;
        lemma_mul_is_distributive_sub_other_way(one, s.units(), p.units() + f.units());
    }
    lemma_mul_is_distributive_add_other_way(one, p.units(), f.units());
    assert(s.units() <= one ==> s.units() * one <= one * one) by (nonlinear_arith)
        requires
            one > 0,
    ;
    assert(s.units() > one ==> s.units() * one > one * one) by (nonlinear_arith)
        requires
            one > 0,
    ;
}

/// The value of a number of at least zero is that of its magnitude.
proof fn lemma_at_least_zero_units(v: Single)
    requires
        v.rank() >= 0,
    ensures
        v.units() == crate::rounding::magnitude_units(v.magnitude()),
{
    crate::rounding::lemma_units_double(0);
}

/// Intensities and beats out of range count as the nearest one in range.
pub proof fn lemma_out_of_range_inputs(level: Single, intensity: Single, on_beat: Single)
    ensures
        !intensity.not_a_number() && intensity.rank() > 0x3f80_0000 ==> channel(
            level,
            intensity,
            on_beat,
        ) == channel(level, Single { bits: 0x3f80_0000 }, on_beat),
        !intensity.not_a_number() && intensity.rank() < 0 ==> channel(level, intensity, on_beat)
            == channel(level, Single { bits: 0 }, on_beat),
        !on_beat.not_a_number() && on_beat.rank() > 0x3f80_0000 ==> channel(
            level,
            intensity,
            on_beat,
        ) == channel(level, intensity, Single { bits: 0x3f80_0000 }),
        !on_beat.not_a_number() && on_beat.rank() < 0 ==> channel(level, intensity, on_beat)
            == channel(level, intensity, Single { bits: 0 }),
{
}

/// Of level and intensity only the product counts, whatever the level is.
pub proof fn lemma_only_the_product_counts(
    level: Single,
    intensity: Single,
    other_level: Single,
    other_intensity: Single,
    on_beat: Single,
)
    requires
        crate::frame::in_unit(intensity),
        crate::frame::in_unit(other_intensity),
        level.product(intensity) == other_level.product(other_intensity),
    ensures
        channel(level, intensity, on_beat) == channel(other_level, other_intensity, on_beat),
{
}

/// A product of at least 1 gives a full channel, and without a beat one of at
/// most 0 gives a dark channel.
pub proof fn lemma_bright_and_dark(level: Single, intensity: Single, on_beat: Single)
    requires
        level.finite(),
        crate::frame::in_unit(intensity),
        crate::frame::in_unit(on_beat),
    ensures
        level.rank() >= 0 && level.product(intensity).rank() >= 0x3f80_0000 ==> channel(
            level,
            intensity,
            on_beat,
        ).bits == 0x3f80_0000,
        level.product(intensity).rank() <= 0 && on_beat.rank() == 0 ==> channel(
            level,
            intensity,
            on_beat,
        ).rank() == 0,
{
    let flash = Single { bits: FLASH_BITS };
    let one = Single { bits: ONE_BITS };
    let p = level.product(intensity);
    let f = flash.product(on_beat);
    crate::binary32::lemma_product_is_nearest(level, intensity, 0);
    lemma_unit_product_error(flash, on_beat);
    if p.rank() >= 0x3f80_0000 && level.rank() >= 0 {
        if p.finite() {
            crate::binary32::lemma_sum_monotone(one, p, Single { bits: 0 }, f);
            crate::binary32::lemma_sum_with_zero(one, Single { bits: 0 });
            crate::binary32::lemma_sum_commutes(one, Single { bits: 0 });
        }
    }
    if p.rank() <= 0 && on_beat.rank() == 0 {
        crate::binary32::lemma_product_with_zero(flash, on_beat);
        if p.finite() {
            let n = p.magnitude();
            crate::rounding::lemma_nearest_exact(n, 0);
            crate::rounding::lemma_units_double(0);
            crate::rounding::lemma_units_monotone(0, n);
            lemma2_to64();
        }
    }
}

} // verus!
