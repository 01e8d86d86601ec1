//! Splitting pixels across universes.

use vstd::prelude::*;

use crate::binary32::Single;
use crate::packet::MAX_RGB_PIXELS_PER_UNIVERSE;
use crate::types::Rgb;

verus! {

/// The first of `total` pixels that universe number `k` gets: 170 go to each
/// universe before it, as long as there are any.
pub open spec fn universe_start(total: nat, k: int) -> int {
    if 170 * k < total {
        170 * k
    } else {
        total as int
    }
}

/// The pixels that universe number `k` gets.
pub open spec fn universe_run(pixels: Seq<Rgb>, k: int) -> Seq<Rgb> {
    pixels.subrange(universe_start(pixels.len(), k), universe_start(pixels.len(), k + 1))
}

/// The channel that stands in slot `i` of a run of pixels.
pub open spec fn slot_channel(pixels: Seq<Rgb>, i: int) -> Single {
    let pixel = pixels[i / 3];
    if i % 3 == 0 {
        pixel.r
    } else if i % 3 == 1 {
        pixel.g
    } else {
        pixel.b
    }
}

/// Whether `slots` are encoded pixels: three slots for each pixel, each encoded
/// from its channel.
pub open spec fn is_encoding<G: Fn(Single) -> u8>(
    gamma: G,
    pixels: Seq<Rgb>,
    slots: Seq<u8>,
) -> bool {
    &&& slots.len() == 3 * pixels.len()
    &&& forall|i: int|
        0 <= i < slots.len() ==> call_ensures(
            gamma,
            (slot_channel(pixels, i),),
            #[trigger] slots[i],
        )
}

/// Whether `parts` are pixels split across universes and encoded.
pub open spec fn is_partition<G: Fn(Single) -> u8>(
    gamma: G,
    pixels: Seq<Rgb>,
    universe_count: nat,
    parts: Seq<Vec<u8>>,
) -> bool {
    &&& parts.len() == universe_count
    &&& forall|k: int|
        0 <= k < universe_count ==> is_encoding(
            gamma,
            universe_run(pixels, k),
            (#[trigger] parts[k])@,
        )
}

/// Encodes a run of pixels, channel by channel.
fn encode_run<G: Fn(Single) -> u8>(
    pixels: &[Rgb],
    start: usize,
    end: usize,
    gamma: &G,
) -> (result: Vec<u8>)
    requires
        start <= end <= pixels@.len(),
        forall|v: Single| call_requires(*gamma, (v,)),
    ensures
        is_encoding(*gamma, pixels@.subrange(start as int, end as int), result@),
{
    let ghost run = pixels@.subrange(start as int, end as int);
    let mut slots: Vec<u8> = Vec::new();
    let mut i: usize = start;
    while i < end
        invariant
            start <= i <= end <= pixels@.len(),
            run == pixels@.subrange(start as int, end as int),
            forall|v: Single| call_requires(*gamma, (v,)),
            slots@.len() == 3 * (i - start),
            forall|j: int|
                0 <= j < slots@.len() ==> call_ensures(
                    *gamma,
                    (slot_channel(run, j),),
                    #[trigger] slots@[j],
                ),
        decreases end - i,
    {
        let pixel = pixels[i];
        assert(run[i - start] == pixel);
        slots.push(gamma(pixel.r));
        slots.push(gamma(pixel.g));
        slots.push(gamma(pixel.b));
        i = i + 1;
    }
    slots
}

/// Splits pixels across universes and encodes them: 170 pixels to each
/// universe until they run out. Universes that get no pixel get no slot, and
/// pixels that no universe is left for are dropped.
pub fn partition_rgb<G: Fn(Single) -> u8>(
    pixels: &[Rgb],
    universe_count: usize,
    gamma: &G,
) -> (result: Vec<Vec<u8>>)
    requires
        forall|v: Single| call_requires(*gamma, (v,)),
    ensures
        is_partition(*gamma, pixels@, universe_count as nat, result@),
{
    let mut parts: Vec<Vec<u8>> = Vec::new();
    let mut start: usize = 0;
    let mut k: usize = 0;
    while k < universe_count
        invariant
            k <= universe_count,
            forall|v: Single| call_requires(*gamma, (v,)),
            start <= pixels@.len(),
            start == universe_start(pixels@.len(), k as int),
            is_partition(*gamma, pixels@, k as nat, parts@),
        decreases universe_count - k,
    {
        let end: usize = if pixels.len() - start < MAX_RGB_PIXELS_PER_UNIVERSE {
            pixels.len()
        } else {
            start + MAX_RGB_PIXELS_PER_UNIVERSE
        };
        parts.push(encode_run(pixels, start, end, gamma));
        start = end;
        k = k + 1;
    }
    parts
}

/// How many universes pixels need.
pub fn universes_for(pixels: usize) -> (result: usize)
    ensures
        pixels <= 170 * result,
        result > 0 ==> 170 * (result - 1) < pixels,
{
    let full: usize = pixels / MAX_RGB_PIXELS_PER_UNIVERSE;
    if pixels % MAX_RGB_PIXELS_PER_UNIVERSE == 0 {
        full
    } else {
        full + 1
    }
}

/// Every universe gets at most 170 pixels, so its slots fit into a packet.
pub proof fn lemma_parts_fit_into_packets<G: Fn(Single) -> u8>(
    gamma: G,
    pixels: Seq<Rgb>,
    universe_count: nat,
    parts: Seq<Vec<u8>>,
    k: int,
)
    requires
        is_partition(gamma, pixels, universe_count, parts),
        0 <= k < universe_count,
    ensures
        universe_run(pixels, k).len() <= MAX_RGB_PIXELS_PER_UNIVERSE,
        parts[k]@.len() <= crate::packet::MAX_SLOTS_PER_UNIVERSE,
{
}

/// Dark pixels give dark slots, if the curve leaves dark channels dark.
pub proof fn lemma_dark_pixels_give_dark_slots<G: Fn(Single) -> u8>(
    gamma: G,
    pixels: Seq<Rgb>,
    universe_count: nat,
    parts: Seq<Vec<u8>>,
    k: int,
    i: int,
)
    requires
        is_partition(gamma, pixels, universe_count, parts),
        forall|v: Single, slot: u8|
            v.rank() == 0 && #[trigger] call_ensures(gamma, (v,), slot) ==> slot == 0,
        forall|j: int|
            0 <= j < pixels.len() ==> (#[trigger] pixels[j]).r.rank() == 0 && pixels[j].g.rank()
                == 0 && pixels[j].b.rank() == 0,
        0 <= k < universe_count,
        0 <= i < parts[k]@.len(),
    ensures
        parts[k]@[i] == 0,
{
    let run = universe_run(pixels, k);
    assert(is_encoding(gamma, run, parts[k]@));
    assert(run[i / 3] == pixels[universe_start(pixels.len(), k) + i / 3]);
    assert(call_ensures(gamma, (slot_channel(run, i),), parts[k]@[i]));
}

/// The pixels of the first `n` universes, in order.
pub open spec fn placed(pixels: Seq<Rgb>, n: nat) -> Seq<Rgb>
    decreases n,
{
    if n == 0 {
        Seq::empty()
    } else {
        placed(pixels, (n - 1) as nat) + universe_run(pixels, n - 1)
    }
}

/// The universes together get the first pixels in order, each pixel once: all
/// pixels if there are universes enough, else 170 for each universe.
pub proof fn lemma_pixels_are_placed_in_order(pixels: Seq<Rgb>, n: nat)
    ensures
        placed(pixels, n) == pixels.take(universe_start(pixels.len(), n as int)),
        pixels.len() <= 170 * n ==> placed(pixels, n) == pixels,
        pixels.len() > 170 * n ==> placed(pixels, n).len()
            == 170 * n,
    decreases n,
{
    if n == 0 {
        assert(placed(pixels, n) =~= pixels.take(0));
    } else {
        lemma_pixels_are_placed_in_order(pixels, (n - 1) as nat);
        assert(placed(pixels, n) =~= pixels.take(universe_start(pixels.len(), n as int)));
    }
    if pixels.len() <= 170 * n {
        assert(placed(pixels, n) =~= pixels);
    }
}

/// Every pixel of a run takes three slots, in the order red, green, blue: slots
/// 3j, 3j+1 and 3j+2 are what the curve gives for the channels of pixel j.
pub proof fn lemma_pixels_are_sent_as_red_green_blue<G: Fn(Single) -> u8>(
    gamma: G,
    pixels: Seq<Rgb>,
    slots: Seq<u8>,
    j: int,
)
    requires
        is_encoding(gamma, pixels, slots),
        0 <= j < pixels.len(),
    ensures
        slots.len() == 3 * pixels.len(),
        call_ensures(gamma, (pixels[j].r,), slots[3 * j]),
        call_ensures(gamma, (pixels[j].g,), slots[3 * j + 1]),
        call_ensures(gamma, (pixels[j].b,), slots[3 * j + 2]),
{
    assert(call_ensures(gamma, (slot_channel(pixels, 3 * j),), slots[3 * j]));
    assert(call_ensures(gamma, (slot_channel(pixels, 3 * j + 1),), slots[3 * j + 1]));
    assert(call_ensures(gamma, (slot_channel(pixels, 3 * j + 2),), slots[3 * j + 2]));
}

/// Slots that hold the three channels of every pixel in this order are an
/// encoding of the pixels.
pub proof fn lemma_red_green_blue_is_an_encoding<G: Fn(Single) -> u8>(
    gamma: G,
    pixels: Seq<Rgb>,
    slots: Seq<u8>,
)
    requires
        slots.len() == 3 * pixels.len(),
        forall|j: int|
            0 <= j < pixels.len() ==> {
                &&& call_ensures(gamma, ((#[trigger] pixels[j]).r,), slots[3 * j])
                &&& call_ensures(gamma, (pixels[j].g,), slots[3 * j + 1])
                &&& call_ensures(gamma, (pixels[j].b,), slots[3 * j + 2])
            },
    ensures
        is_encoding(gamma, pixels, slots),
{
    assert forall|i: int| 0 <= i < slots.len() implies call_ensures(
        gamma,
        (slot_channel(pixels, i),),
        #[trigger] slots[i],
    ) by {
        let pixel = pixels[i / 3];
        assert(i == 3 * (i / 3) + i % 3);
    }
}

/// Encoding one run after another is encoding them together.
pub proof fn lemma_encodings_concatenate<G: Fn(Single) -> u8>(
    gamma: G,
    first: Seq<Rgb>,
    second: Seq<Rgb>,
    a: Seq<u8>,
    b: Seq<u8>,
)
    requires
        is_encoding(gamma, first, a),
        is_encoding(gamma, second, b),
    ensures
        is_encoding(gamma, first + second, a + b),
{
    let pixels = first + second;
    let slots = a + b;
    assert forall|j: int| 0 <= j < pixels.len() implies {
        &&& call_ensures(gamma, ((#[trigger] pixels[j]).r,), slots[3 * j])
        &&& call_ensures(gamma, (pixels[j].g,), slots[3 * j + 1])
        &&& call_ensures(gamma, (pixels[j].b,), slots[3 * j + 2])
    } by {
        if j < first.len() {
            lemma_pixels_are_sent_as_red_green_blue(gamma, first, a, j);
        } else {
            lemma_pixels_are_sent_as_red_green_blue(gamma, second, b, j - first.len());
        }
    }
    lemma_red_green_blue_is_an_encoding(gamma, pixels, slots);
}

/// Pixel 170k + j of a strip is pixel j of universe k: its channels stand there
/// in slots 3j, 3j+1 and 3j+2 as red, green and blue.
pub proof fn lemma_every_pixel_has_its_place<G: Fn(Single) -> u8>(
    gamma: G,
    pixels: Seq<Rgb>,
    universe_count: nat,
    parts: Seq<Vec<u8>>,
    k: int,
    j: int,
)
    requires
        is_partition(gamma, pixels, universe_count, parts),
        0 <= k < universe_count,
        0 <= j < 170,
        170 * k + j < pixels.len(),
    ensures
        3 * j + 2 < parts[k]@.len(),
        call_ensures(gamma, (pixels[170 * k + j].r,), parts[k]@[3 * j]),
        call_ensures(gamma, (pixels[170 * k + j].g,), parts[k]@[3 * j + 1]),
        call_ensures(gamma, (pixels[170 * k + j].b,), parts[k]@[3 * j + 2]),
{
    let run = universe_run(pixels, k);
    assert(is_encoding(gamma, run, parts[k]@));
    assert(run[j] == pixels[170 * k + j]);
    lemma_pixels_are_sent_as_red_green_blue(gamma, run, parts[k]@, j);
}

/// There is one run of slots for each universe, and universe k has three slots
/// for each pixel from 170k on, at most 510.
pub proof fn lemma_slot_counts<G: Fn(Single) -> u8>(
    gamma: G,
    pixels: Seq<Rgb>,
    universe_count: nat,
    parts: Seq<Vec<u8>>,
    k: int,
)
    requires
        is_partition(gamma, pixels, universe_count, parts),
        0 <= k < universe_count,
    ensures
        parts.len() == universe_count,
        pixels.len() >= 170 * k + 170 ==> parts[k]@.len() == 510,
        170 * k <= pixels.len() < 170 * k + 170 ==> parts[k]@.len() == 3 * (pixels.len() - 170 * k),
        pixels.len() < 170 * k ==> parts[k]@.len() == 0,
{
    assert(is_encoding(gamma, universe_run(pixels, k), parts[k]@));
}

} // verus!
