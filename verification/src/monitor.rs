//! What the monitor prints.
//!
//! How a number is written is the caller's business: every function here takes
//! a function from a number, and the decimals wanted, to text.

use vstd::prelude::*;
use vstd::string::*;

use crate::binary32::{Double, Single};
use crate::frame::AudioFrameBuilder;
use crate::ingress::{apply_packet, IngressError};
use crate::osc::{decode, Arg, Message, Packet};
use crate::text::{push_decimal, push_hex, push_signed_decimal, truncate_str};
use crate::types::AudioFrame;

verus! {

/// The pattern of one half.
pub const HALF_BITS: u32 = 0x3f00_0000;

/// How many characters of a string argument are shown.
pub const SHOWN_CHARACTERS: usize = 32;

/// A number of either precision.
#[derive(Clone, Copy, Debug)]
pub enum Number {
    /// A single-precision number.
    Single(Single),
    /// A double-precision number.
    Double(Double),
}

/// Whether a text is how `write` writes a number.
pub open spec fn is_written<W: Fn(Number, Option<usize>) -> String>(
    write: W,
    number: Number,
    decimals: Option<usize>,
    text: Seq<char>,
) -> bool {
    exists|written: String|
        #[trigger] call_ensures(write, (number, decimals), written) && written@ == text
}

/// Whether `write` can be called for every number.
pub open spec fn can_write<W: Fn(Number, Option<usize>) -> String>(write: W) -> bool {
    forall|number: Number, decimals: Option<usize>| call_requires(write, (number, decimals))
}

/// Texts with a separator between them.
pub open spec fn joined(pieces: Seq<Seq<char>>, separator: char) -> Seq<char>
    decreases pieces.len(),
{
    if pieces.len() == 0 {
        Seq::empty()
    } else if pieces.len() == 1 {
        pieces[0]
    } else {
        joined(pieces.drop_last(), separator).push(separator) + pieces.last()
    }
}

/// Whether a text is a tag and how `write` writes a number.
pub open spec fn is_tagged<W: Fn(Number, Option<usize>) -> String>(
    write: W,
    tag: Seq<char>,
    number: Number,
    text: Seq<char>,
) -> bool {
    exists|value: Seq<char>|
        #[trigger] is_written(write, number, None, value) && text == tag + value
}

/// Whether a text is what is shown of an argument: a tag and its value.
pub open spec fn is_arg_text<W: Fn(Number, Option<usize>) -> String>(
    write: W,
    arg: crate::osc::ArgView,
    text: Seq<char>,
) -> bool {
    match arg {
        crate::osc::ArgView::Float(v) => is_tagged(write, "f:"@, Number::Single(v), text),
        crate::osc::ArgView::Double(v) => is_tagged(write, "d:"@, Number::Double(v), text),
        crate::osc::ArgView::Int(v) => text == "i:"@ + crate::text::signed_decimal(v as int),
        crate::osc::ArgView::Long(v) => text == "h:"@ + crate::text::signed_decimal(v as int),
        crate::osc::ArgView::Bool(v) => text == "b:"@ + if v {
            "true"@
        } else {
            "false"@
        },
        crate::osc::ArgView::String(v) => text == "s:"@ + crate::text::truncated(
            v,
            SHOWN_CHARACTERS as nat,
        ),
        crate::osc::ArgView::Char(v) => text == "c:"@.push(v),
        crate::osc::ArgView::Color(r, g, b, a) => text == "r:"@ + crate::text::hex(r)
            + crate::text::hex(g) + crate::text::hex(b) + crate::text::hex(a),
        crate::osc::ArgView::Blob(v) => text == "blob["@ + crate::text::decimal(v.len()) + "]"@,
        crate::osc::ArgView::Time(_) => text == "t:<timetag>"@,
        crate::osc::ArgView::Midi(_, _, _, _) => text == "m:<midi>"@,
        crate::osc::ArgView::Array(items) => text == "a["@ + crate::text::decimal(items.len())
            + "]"@,
        crate::osc::ArgView::Nil => text == "N"@,
        crate::osc::ArgView::Inf => text == "I"@,
    }
}

/// Whether texts are what is shown of arguments, one for each.
pub open spec fn are_arg_texts<W: Fn(Number, Option<usize>) -> String>(
    write: W,
    args: Seq<crate::osc::ArgView>,
    pieces: Seq<Seq<char>>,
) -> bool {
    &&& pieces.len() == args.len()
    &&& forall|i: int| 0 <= i < args.len() ==> is_arg_text(write, args[i], #[trigger] pieces[i])
}

/// Whether a text is what is shown of arguments, separated by spaces.
pub open spec fn is_args_text<W: Fn(Number, Option<usize>) -> String>(
    write: W,
    args: Seq<crate::osc::ArgView>,
    text: Seq<char>,
) -> bool {
    exists|pieces: Seq<Seq<char>>|
        #[trigger] are_arg_texts(write, args, pieces) && text == joined(pieces, ' ')
}

/// What is shown of an argument.
fn arg_text<W: Fn(Number, Option<usize>) -> String>(arg: &Arg, write: &W) -> (result: String)
    requires
        can_write(*write),
    ensures
        is_arg_text(*write, arg@, result@),
{
    let mut out = String::new();
    match arg {
        Arg::Float(v) => {
            let value = write(Number::Single(*v), None);
            out.append("f:");
            out.append(value.as_str());
            assert(is_written(*write, Number::Single(*v), None, value@));
        },
        Arg::Double(v) => {
            let value = write(Number::Double(*v), None);
            out.append("d:");
            out.append(value.as_str());
            assert(is_written(*write, Number::Double(*v), None, value@));
        },
        Arg::Int(v) => {
            out.append("i:");
            push_signed_decimal(&mut out, *v as i64);
        },
        Arg::Long(v) => {
            out.append("h:");
            push_signed_decimal(&mut out, *v);
        },
        Arg::Bool(v) => {
            out.append("b:");
            out.append(if *v { "true" } else { "false" });
            assert(is_arg_text(*write, arg@, out@));
        },
        Arg::String(v) => {
            out.append("s:");
            out.append(truncate_str(v.as_str(), SHOWN_CHARACTERS).as_str());
        },
        Arg::Char(v) => {
            out.append("c:");
            out.push(*v);
        },
        Arg::Color(r, g, b, a) => {
            out.append("r:");
            push_hex(&mut out, *r);
            push_hex(&mut out, *g);
            push_hex(&mut out, *b);
            push_hex(&mut out, *a);
        },
        Arg::Blob(v) => {
            out.append("blob[");
            push_decimal(&mut out, v.len() as u64);
            out.append("]");
        },
        Arg::Time(_) => {
            out.append("t:<timetag>");
        },
        Arg::Midi(_, _, _, _) => {
            out.append("m:<midi>");
        },
        Arg::Array(items) => {
            proof {
                crate::osc::lemma_array_view(*items);
            }
            out.append("a[");
            push_decimal(&mut out, items.len() as u64);
            out.append("]");
        },
        Arg::Nil => {
            out.append("N");
        },
        Arg::Inf => {
            out.append("I");
        },
    }
    out
}

/// What a list of texts holds.
pub open spec fn texts(pieces: Seq<String>) -> Seq<Seq<char>> {
    Seq::new(pieces.len(), |i: int| pieces[i]@)
}

/// Joins texts with a separator.
fn join(pieces: &[String], separator: char) -> (result: String)
    ensures
        result@ == joined(texts(pieces@), separator),
{
    let mut out = String::new();
    let mut i: usize = 0;
    while i < pieces.len()
        invariant
            i <= pieces@.len(),
            out@ == joined(texts(pieces@).take(i as int), separator),
        decreases pieces@.len() - i,
    {
        if i > 0 {
            out.push(separator);
        }
        out.append(pieces[i].as_str());
        proof {
            let next = texts(pieces@).take(i + 1);
            assert(next.drop_last() =~= texts(pieces@).take(i as int));
        }
        i = i + 1;
    }
    assert(texts(pieces@).take(i as int) =~= texts(pieces@));
    out
}

/// What is shown of arguments: a tag and a value for each, separated by spaces.
/// Long strings are cut, so that a line stays readable.
pub fn fmt_args<W: Fn(Number, Option<usize>) -> String>(args: &[Arg], write: &W) -> (result: String)
    requires
        can_write(*write),
    ensures
        is_args_text(*write, crate::osc::args_view(args@), result@),
{
    let mut pieces: Vec<String> = Vec::new();
    let mut i: usize = 0;
    while i < args.len()
        invariant
            i <= args@.len(),
            can_write(*write),
            pieces@.len() == i,
            forall|j: int| 0 <= j < i ==> is_arg_text(*write, args@[j]@, (#[trigger] pieces@[j])@),
        decreases args@.len() - i,
    {
        pieces.push(arg_text(&args[i], write));
        i = i + 1;
    }
    assert(are_arg_texts(*write, crate::osc::args_view(args@), texts(pieces@)));
    join(pieces.as_slice(), ' ')
}

/// Joined texts and more joined texts, with a separator between them, are all
/// the texts joined.
pub proof fn lemma_joined_in_two_parts(
    first: Seq<Seq<char>>,
    second: Seq<Seq<char>>,
    separator: char,
)
    requires
        first.len() > 0,
        second.len() > 0,
    ensures
        joined(first + second, separator) == joined(first, separator).push(separator) + joined(
            second,
            separator,
        ),
    decreases second.len(),
{
    let all = first + second;
    if second.len() == 1 {
        assert(all.drop_last() =~= first);
    } else {
        lemma_joined_in_two_parts(first, second.drop_last(), separator);
        assert(all.drop_last() =~= first + second.drop_last());
        assert(joined(all, separator) =~= joined(first, separator).push(separator) + joined(
            second,
            separator,
        ));
    }
}

/// A text of one list of arguments, a space and a text of another list are a
/// text of both lists together.
pub proof fn lemma_args_texts_join<W: Fn(Number, Option<usize>) -> String>(
    write: W,
    first: Seq<crate::osc::ArgView>,
    second: Seq<crate::osc::ArgView>,
    a: Seq<char>,
    b: Seq<char>,
)
    requires
        first.len() > 0,
        second.len() > 0,
        is_args_text(write, first, a),
        is_args_text(write, second, b),
    ensures
        is_args_text(write, first + second, a.push(' ') + b),
{
    let left = choose|pieces: Seq<Seq<char>>|
        #[trigger] are_arg_texts(write, first, pieces) && a == joined(pieces, ' ');
    let right = choose|pieces: Seq<Seq<char>>|
        #[trigger] are_arg_texts(write, second, pieces) && b == joined(pieces, ' ');
    lemma_joined_in_two_parts(left, right, ' ');
    assert(are_arg_texts(write, first + second, left + right));
}

/// Every text of two lists of arguments together is a text of the first, a
/// space and a text of the second.
pub proof fn lemma_args_text_splits<W: Fn(Number, Option<usize>) -> String>(
    write: W,
    first: Seq<crate::osc::ArgView>,
    second: Seq<crate::osc::ArgView>,
    text: Seq<char>,
)
    requires
        first.len() > 0,
        second.len() > 0,
        is_args_text(write, first + second, text),
    ensures
        exists|a: Seq<char>, b: Seq<char>|
            #[trigger] is_args_text(write, first, a) && #[trigger] is_args_text(write, second, b)
                && text == a.push(' ') + b,
{
    let pieces = choose|pieces: Seq<Seq<char>>|
        #[trigger] are_arg_texts(write, first + second, pieces) && text == joined(pieces, ' ');
    let left = pieces.take(first.len() as int);
    let right = pieces.skip(first.len() as int);
    assert(pieces =~= left + right);
    lemma_joined_in_two_parts(left, right, ' ');
    assert forall|i: int| 0 <= i < first.len() implies is_arg_text(
        write,
        first[i],
        #[trigger] left[i],
    ) by {
        assert(is_arg_text(write, (first + second)[i], pieces[i]));
    }
    assert forall|i: int| 0 <= i < second.len() implies is_arg_text(
        write,
        second[i],
        #[trigger] right[i],
    ) by {
        assert(is_arg_text(write, (first + second)[first.len() + i], pieces[first.len() + i]));
    }
    assert(are_arg_texts(write, first, left));
    assert(are_arg_texts(write, second, right));
    assert(is_args_text(write, first, joined(left, ' ')));
    assert(is_args_text(write, second, joined(right, ' ')));
}

/// Where every number is written in one way only, arguments have one text only.
pub proof fn lemma_args_text_is_unique<W: Fn(Number, Option<usize>) -> String>(
    write: W,
    args: Seq<crate::osc::ArgView>,
    a: Seq<char>,
    b: Seq<char>,
)
    requires
        forall|number: Number, decimals: Option<usize>, s: String, t: String|
            #[trigger] call_ensures(write, (number, decimals), s) && #[trigger] call_ensures(
                write,
                (number, decimals),
                t,
            ) ==> s@ == t@,
        is_args_text(write, args, a),
        is_args_text(write, args, b),
    ensures
        a == b,
{
    let left = choose|pieces: Seq<Seq<char>>|
        #[trigger] are_arg_texts(write, args, pieces) && a == joined(pieces, ' ');
    let right = choose|pieces: Seq<Seq<char>>|
        #[trigger] are_arg_texts(write, args, pieces) && b == joined(pieces, ' ');
    assert forall|i: int| 0 <= i < args.len() implies left[i] == right[i] by {
        assert(is_arg_text(write, args[i], left[i]));
        assert(is_arg_text(write, args[i], right[i]));
    }
    assert(left =~= right);
}

/// Where every number is written in one way only, the text of two lists of
/// arguments together is the text of the first, a space and the text of the
/// second.
pub proof fn lemma_args_text_of_both<W: Fn(Number, Option<usize>) -> String>(
    write: W,
    first: Seq<crate::osc::ArgView>,
    second: Seq<crate::osc::ArgView>,
    a: Seq<char>,
    b: Seq<char>,
    both: Seq<char>,
)
    requires
        forall|number: Number, decimals: Option<usize>, s: String, t: String|
            #[trigger] call_ensures(write, (number, decimals), s) && #[trigger] call_ensures(
                write,
                (number, decimals),
                t,
            ) ==> s@ == t@,
        first.len() > 0,
        second.len() > 0,
        is_args_text(write, first, a),
        is_args_text(write, second, b),
        is_args_text(write, first + second, both),
    ensures
        both == a.push(' ') + b,
{
    lemma_args_texts_join(write, first, second, a, b);
    lemma_args_text_is_unique(write, first + second, both, a.push(' ') + b);
}

/// No arguments have an empty text.
pub proof fn lemma_no_args_text<W: Fn(Number, Option<usize>) -> String>(
    write: W,
    text: Seq<char>,
)
    ensures
        is_args_text(write, Seq::empty(), text) <==> text == Seq::<char>::empty(),
{
    assert(are_arg_texts(write, Seq::empty(), Seq::empty()));
}

/// A string alone is shown with its tag and cut, so that its text has at most
/// 35 characters; of a run of bytes alone the length is shown.
pub proof fn lemma_one_arg_text<W: Fn(Number, Option<usize>) -> String>(
    write: W,
    s: Seq<char>,
    bytes: Seq<u8>,
    text: Seq<char>,
)
    ensures
        is_args_text(write, seq![crate::osc::ArgView::String(s)], text) <==> text == "s:"@
            + crate::text::truncated(s, SHOWN_CHARACTERS as nat),
        is_args_text(write, seq![crate::osc::ArgView::String(s)], text) ==> text.len() <= 35,
        is_args_text(write, seq![crate::osc::ArgView::Blob(bytes)], text) <==> text == "blob["@
            + crate::text::decimal(bytes.len()) + "]"@,
{
    reveal_strlit("s:");
    let string = seq![crate::osc::ArgView::String(s)];
    let blob = seq![crate::osc::ArgView::Blob(bytes)];
    assert(joined(seq![text], ' ') == text);
    if text == "s:"@ + crate::text::truncated(s, SHOWN_CHARACTERS as nat) {
        assert(are_arg_texts(write, string, seq![text]));
    }
    if text == "blob["@ + crate::text::decimal(bytes.len()) + "]"@ {
        assert(are_arg_texts(write, blob, seq![text]));
    }
    if is_args_text(write, string, text) {
        let pieces = choose|pieces: Seq<Seq<char>>|
            #[trigger] are_arg_texts(write, string, pieces) && text == joined(pieces, ' ');
        assert(is_arg_text(write, string[0], pieces[0]));
    }
    if is_args_text(write, blob, text) {
        let pieces = choose|pieces: Seq<Seq<char>>|
            #[trigger] are_arg_texts(write, blob, pieces) && text == joined(pieces, ' ');
        assert(is_arg_text(write, blob[0], pieces[0]));
    }
}

/// Whether a text is the raw line of a message: who sent it, its address and
/// its arguments.
pub open spec fn is_raw_line<W: Fn(Number, Option<usize>) -> String>(
    write: W,
    peer: Seq<char>,
    message: crate::osc::MessageView,
    line: Seq<char>,
) -> bool {
    exists|args: Seq<char>|
        #[trigger] is_args_text(write, message.args, args) && line == joined(
            seq!["raw"@, peer, message.addr, args],
            '\t',
        )
}

/// Whether texts are the raw lines of messages, one for each.
pub open spec fn are_raw_lines<W: Fn(Number, Option<usize>) -> String>(
    write: W,
    peer: Seq<char>,
    messages: Seq<crate::osc::MessageView>,
    lines: Seq<String>,
) -> bool {
    &&& lines.len() == messages.len()
    &&& forall|i: int|
        0 <= i < messages.len() ==> is_raw_line(write, peer, messages[i], (#[trigger] lines[i])@)
}

/// The raw line of a message.
fn raw_line<W: Fn(Number, Option<usize>) -> String>(
    message: &Message,
    peer: &str,
    write: &W,
) -> (result: String)
    requires
        can_write(*write),
    ensures
        is_raw_line(*write, peer@, message@, result@),
{
    let args = fmt_args(message.args.as_slice(), write);
    let ghost shown = args@;
    let columns = vec!["raw".to_owned(), peer.to_owned(), message.addr.clone(), args];
    proof {
        assert(is_args_text(*write, message@.args, shown));
        assert(texts(columns@) =~= seq!["raw"@, peer@, message@.addr, shown]);
    }
    join(columns.as_slice(), '\t')
}

/// Appends the raw lines of all messages of a packet, in order.
fn push_raw_lines<W: Fn(Number, Option<usize>) -> String>(
    packet: &Packet,
    peer: &str,
    write: &W,
    lines: &mut Vec<String>,
)
    requires
        can_write(*write),
    ensures
        final(lines)@.len() == old(lines)@.len() + crate::osc::messages(packet@).len(),
        final(lines)@.take(old(lines)@.len() as int) == old(lines)@,
        are_raw_lines(
            *write,
            peer@,
            crate::osc::messages(packet@),
            final(lines)@.skip(old(lines)@.len() as int),
        ),
    decreases packet@,
{
    let ghost before = lines@;
    match packet {
        Packet::Message(message) => {
            lines.push(raw_line(message, peer, write));
        },
        Packet::Bundle(time, items) => {
            let ghost views = crate::osc::items_view(*items, items.len() as nat);
            let mut i: usize = 0;
            while i < items.len()
                invariant
                    i <= items.len(),
                    can_write(*write),
                    views == crate::osc::items_view(*items, items.len() as nat),
                    packet@ == crate::osc::PacketView::Bundle(*time, views),
                    lines@.len() == before.len() + crate::osc::messages_of(views, i as nat).len(),
                    lines@.take(before.len() as int) == before,
                    are_raw_lines(
                        *write,
                        peer@,
                        crate::osc::messages_of(views, i as nat),
                        lines@.skip(before.len() as int),
                    ),
                decreases items.len() - i,
            {
                let ghost shown = lines@;
                proof {
                    crate::osc::lemma_items_view(*items, items.len() as nat);
                    assert(decreases_to!(packet@ => packet@->Bundle_1));
                    assert(decreases_to!(views => views[i as int]));
                }
                push_raw_lines(&items[i], peer, write, lines);
                proof {
                    let earlier = crate::osc::messages_of(views, i as nat);
                    let all = crate::osc::messages_of(views, (i + 1) as nat);
                    let now = lines@.skip(before.len() as int);
                    assert forall|j: int| 0 <= j < before.len() implies lines@[j] == before[j] by {
                        assert(lines@[j] == lines@.take(shown.len() as int)[j]);
                        assert(shown[j] == shown.take(before.len() as int)[j]);
                    }
                    assert forall|j: int| 0 <= j < all.len() implies is_raw_line(
                        *write,
                        peer@,
                        all[j],
                        (#[trigger] now[j])@,
                    ) by {
                        if j < earlier.len() {
                            assert(now[j] == shown.skip(before.len() as int)[j]);
                        } else {
                            assert(now[j] == lines@.skip(shown.len() as int)[j - earlier.len()]);
                        }
                    }
                }
                i = i + 1;
            }
            proof {
                crate::osc::lemma_items_view(*items, items.len() as nat);
            }
        },
    }
}

/// The raw lines of a packet: one for each message, in order.
pub fn walk_for_raw<W: Fn(Number, Option<usize>) -> String>(
    packet: &Packet,
    peer: &str,
    write: &W,
) -> (result: Vec<String>)
    requires
        can_write(*write),
    ensures
        are_raw_lines(*write, peer@, crate::osc::messages(packet@), result@),
{
    let mut lines: Vec<String> = Vec::new();
    push_raw_lines(packet, peer, write, &mut lines);
    assert(lines@.skip(0) =~= lines@);
    lines
}

/// The raw lines of a datagram, or nothing where it is no packet.
pub fn dump_raw<W: Fn(Number, Option<usize>) -> String>(
    bytes: &[u8],
    peer: &str,
    write: &W,
) -> (result: Option<Vec<String>>)
    requires
        can_write(*write),
    ensures
        match crate::osc::decoding(bytes@) {
            Ok(packet) => result is Some && are_raw_lines(
                *write,
                peer@,
                crate::osc::messages(packet),
                result->0@,
            ),
            Err(_) => result is None,
        },
{
    match decode(bytes) {
        Ok(packet) => Some(walk_for_raw(&packet, peer, write)),
        Err(_) => None,
    }
}

/// What the beat column shows: 1 from half of the envelope on, else 0.
pub open spec fn beat_text(on_beat: Single) -> Seq<char> {
    if on_beat.not_a_number() || on_beat.below(Single { bits: HALF_BITS }) {
        "0"@
    } else {
        "1"@
    }
}

/// Whether texts are the nine columns of a frame: time, tempo, beat phase,
/// beat, bass, mid and high level, intensity and fade. The tempo has two
/// decimals, the others have four.
pub open spec fn are_columns<W: Fn(Number, Option<usize>) -> String>(
    write: W,
    frame: AudioFrame,
    columns: Seq<Seq<char>>,
) -> bool {
    &&& columns.len() == 9
    &&& is_written(write, Number::Double(frame.t), Some(4), columns[0])
    &&& is_written(write, Number::Single(frame.bpm), Some(2), columns[1])
    &&& is_written(write, Number::Single(frame.beat_phase), Some(4), columns[2])
    &&& columns[3] == beat_text(frame.on_beat)
    &&& is_written(write, Number::Single(frame.levels.bass), Some(4), columns[4])
    &&& is_written(write, Number::Single(frame.levels.mid), Some(4), columns[5])
    &&& is_written(write, Number::Single(frame.levels.high), Some(4), columns[6])
    &&& is_written(write, Number::Single(frame.intensity), Some(4), columns[7])
    &&& is_written(write, Number::Single(frame.fade), Some(4), columns[8])
}

/// Whether a text is the line of a frame: its columns, separated by tabs.
pub open spec fn is_frame_line<W: Fn(Number, Option<usize>) -> String>(
    write: W,
    frame: AudioFrame,
    line: Seq<char>,
) -> bool {
    exists|columns: Seq<Seq<char>>|
        #[trigger] are_columns(write, frame, columns) && line == joined(columns, '\t')
}

/// The line of a frame.
pub fn format_frame<W: Fn(Number, Option<usize>) -> String>(
    frame: &AudioFrame,
    write: &W,
) -> (result: String)
    requires
        can_write(*write),
    ensures
        is_frame_line(*write, *frame, result@),
{
    let on_beat = frame.on_beat;
    let beat = if on_beat.is_nan() || on_beat.is_below(Single { bits: HALF_BITS }) {
        "0"
    } else {
        "1"
    };
    let columns = vec![
        write(Number::Double(frame.t), Some(4)),
        write(Number::Single(frame.bpm), Some(2)),
        write(Number::Single(frame.beat_phase), Some(4)),
        beat.to_owned(),
        write(Number::Single(frame.levels.bass), Some(4)),
        write(Number::Single(frame.levels.mid), Some(4)),
        write(Number::Single(frame.levels.high), Some(4)),
        write(Number::Single(frame.intensity), Some(4)),
        write(Number::Single(frame.fade), Some(4)),
    ];
    assert(are_columns(*write, *frame, texts(columns@)));
    join(columns.as_slice(), '\t')
}

/// How often a character occurs in a text.
pub open spec fn occurrences(text: Seq<char>, c: char) -> nat
    decreases text.len(),
{
    if text.len() == 0 {
        0
    } else {
        occurrences(text.drop_last(), c) + if text.last() == c {
            1nat
        } else {
            0nat
        }
    }
}

/// A character occurs in two texts together as often as in each.
proof fn lemma_occurrences_add(first: Seq<char>, second: Seq<char>, c: char)
    ensures
        occurrences(first + second, c) == occurrences(first, c) + occurrences(second, c),
    decreases second.len(),
{
    if second.len() == 0 {
        assert(first + second =~= first);
    } else {
        lemma_occurrences_add(first, second.drop_last(), c);
        assert((first + second).drop_last() =~= first + second.drop_last());
    }
}

/// Texts without the separator, joined, hold it once less than there are texts.
pub proof fn lemma_joined_separators(pieces: Seq<Seq<char>>, separator: char)
    requires
        pieces.len() > 0,
        forall|i: int|
            0 <= i < pieces.len() ==> occurrences(#[trigger] pieces[i], separator) == 0,
    ensures
        occurrences(joined(pieces, separator), separator) == pieces.len() - 1,
    decreases pieces.len(),
{
    if pieces.len() > 1 {
        let earlier = joined(pieces.drop_last(), separator);
        lemma_joined_separators(pieces.drop_last(), separator);
        assert(earlier.push(separator).drop_last() =~= earlier);
        lemma_occurrences_add(earlier.push(separator), pieces.last(), separator);
    }
}

/// The line of a frame has nine columns: there are eight tabs in it, if numbers
/// are written without tabs.
pub proof fn lemma_frame_line_has_nine_columns<W: Fn(Number, Option<usize>) -> String>(
    write: W,
    frame: AudioFrame,
    line: Seq<char>,
)
    requires
        is_frame_line(write, frame, line),
        forall|number: Number, decimals: Option<usize>, text: String|
            #[trigger] call_ensures(write, (number, decimals), text) ==> occurrences(text@, '\t')
                == 0,
    ensures
        occurrences(line, '\t') == 8,
{
    let columns = choose|columns: Seq<Seq<char>>|
        #[trigger] are_columns(write, frame, columns) && line == joined(columns, '\t');
    reveal_strlit("0");
    reveal_strlit("1");
    assert(occurrences(beat_text(frame.on_beat), '\t') == 0) by {
        reveal_with_fuel(occurrences, 2);
    }
    lemma_joined_separators(columns, '\t');
}

/// What the monitor prints for a datagram.
#[derive(Debug)]
pub struct Report {
    /// The raw lines, if they are wanted.
    pub raw: Vec<String>,
    /// The line of the frame.
    pub frame: String,
    /// The packet.
    pub packet: Packet,
}

/// Takes a datagram in and says what to print. A datagram that is no packet is
/// skipped: nothing is printed for it, and it changes nothing.
pub fn run_monitor<W: Fn(Number, Option<usize>) -> String>(
    bytes: &[u8],
    raw: bool,
    peer: &str,
    builder: &mut AudioFrameBuilder,
    write: &W,
) -> (result: Result<Report, IngressError>)
    requires
        can_write(*write),
    ensures
        match crate::osc::decoding(bytes@) {
            Ok(packet) => {
                &&& result is Ok
                &&& result->Ok_0.packet@ == packet
                &&& final(builder).frame() == crate::ingress::applied_all(
                    old(builder).frame(),
                    crate::osc::messages(packet),
                )
                &&& is_frame_line(*write, final(builder).frame(), result->Ok_0.frame@)
                &&& raw ==> are_raw_lines(
                    *write,
                    peer@,
                    crate::osc::messages(packet),
                    result->Ok_0.raw@,
                )
                &&& !raw ==> result->Ok_0.raw@.len() == 0
            },
            Err(error) => {
                &&& result is Err
                &&& result->Err_0 == IngressError::Decode(error)
                &&& final(builder).frame() == old(builder).frame()
            },
        },
{
    match decode(bytes) {
        Ok(packet) => {
            let lines = if raw { walk_for_raw(&packet, peer, write) } else { Vec::new() };
            apply_packet(&packet, builder);
            let frame = builder.snapshot();
            Ok(Report { raw: lines, frame: format_frame(&frame, write), packet })
        },
        Err(error) => Err(IngressError::from(error)),
    }
}

/// No texts join to nothing, and one text is left as it is.
pub proof fn lemma_few_texts_joined(piece: Seq<char>, separator: char)
    ensures
        joined(Seq::empty(), separator) == Seq::<char>::empty(),
        joined(seq![piece], separator) == piece,
{
}

/// A text is how a number is written if `write` can give it for that number and
/// those decimals.
pub proof fn lemma_written_numbers<W: Fn(Number, Option<usize>) -> String>(
    write: W,
    number: Number,
    decimals: Option<usize>,
    written: String,
    text: Seq<char>,
)
    ensures
        call_ensures(write, (number, decimals), written) ==> is_written(
            write,
            number,
            decimals,
            written@,
        ),
        is_written(write, number, decimals, text) ==> exists|s: String|
            #[trigger] call_ensures(write, (number, decimals), s) && s@ == text,
{
}

/// The columns of the line of a frame are, in this order: its time with four
/// decimals, its tempo with two, its beat phase with four, 1 or 0 for the beat,
/// its bass, mid and high level, its intensity and its fade, each with four.
pub proof fn lemma_columns_of_a_frame_line<W: Fn(Number, Option<usize>) -> String>(
    write: W,
    frame: AudioFrame,
    line: Seq<char>,
)
    requires
        is_frame_line(write, frame, line),
    ensures
        exists|shown: Seq<Seq<char>>|
            {
                &&& line == #[trigger] joined(shown, '\t')
                &&& shown.len() == 9
                &&& is_written(write, Number::Double(frame.t), Some(4), shown[0])
                &&& is_written(write, Number::Single(frame.bpm), Some(2), shown[1])
                &&& is_written(write, Number::Single(frame.beat_phase), Some(4), shown[2])
                &&& shown[3] == seq!['0'] || shown[3] == seq!['1']
                &&& shown[3] == seq!['1'] <==> frame.on_beat.rank() >= 0x3f00_0000
                    && !frame.on_beat.not_a_number()
                &&& is_written(write, Number::Single(frame.levels.bass), Some(4), shown[4])
                &&& is_written(write, Number::Single(frame.levels.mid), Some(4), shown[5])
                &&& is_written(write, Number::Single(frame.levels.high), Some(4), shown[6])
                &&& is_written(write, Number::Single(frame.intensity), Some(4), shown[7])
                &&& is_written(write, Number::Single(frame.fade), Some(4), shown[8])
            },
{
    let columns = choose|columns: Seq<Seq<char>>|
        #[trigger] are_columns(write, frame, columns) && line == joined(columns, '\t');
    reveal_strlit("0");
    reveal_strlit("1");
    assert("0"@ =~= seq!['0']);
    assert("1"@ =~= seq!['1']);
    assert("0"@[0] != "1"@[0]);
    assert(line == joined(columns, '\t'));
}

/// The line of a frame depends on its time, tempo, beat phase, beat, bass, mid
/// and high level, intensity and fade alone.
pub proof fn lemma_frame_lines_show_nine_values<W: Fn(Number, Option<usize>) -> String>(
    write: W,
    frame: AudioFrame,
    other: AudioFrame,
    line: Seq<char>,
)
    requires
        frame.t == other.t,
        frame.bpm == other.bpm,
        frame.beat_phase == other.beat_phase,
        frame.on_beat == other.on_beat,
        frame.levels.bass == other.levels.bass,
        frame.levels.mid == other.levels.mid,
        frame.levels.high == other.levels.high,
        frame.intensity == other.intensity,
        frame.fade == other.fade,
    ensures
        is_frame_line(write, frame, line) == is_frame_line(write, other, line),
{
    if is_frame_line(write, frame, line) {
        let columns = choose|columns: Seq<Seq<char>>|
            #[trigger] are_columns(write, frame, columns) && line == joined(columns, '\t');
        assert(are_columns(write, other, columns));
    }
    if is_frame_line(write, other, line) {
        let columns = choose|columns: Seq<Seq<char>>|
            #[trigger] are_columns(write, other, columns) && line == joined(columns, '\t');
        assert(are_columns(write, frame, columns));
    }
}

/// One argument alone is shown by itself.
pub proof fn lemma_single_argument<W: Fn(Number, Option<usize>) -> String>(
    write: W,
    arg: crate::osc::ArgView,
    text: Seq<char>,
)
    ensures
        is_args_text(write, seq![arg], text) <==> is_arg_text(write, arg, text),
{
    if is_arg_text(write, arg, text) {
        assert(are_arg_texts(write, seq![arg], seq![text]));
        assert(joined(seq![text], ' ') == text);
    }
    if is_args_text(write, seq![arg], text) {
        let pieces = choose|pieces: Seq<Seq<char>>|
            #[trigger] are_arg_texts(write, seq![arg], pieces) && text == joined(pieces, ' ');
        assert(is_arg_text(write, seq![arg][0], pieces[0]));
    }
}

/// Numbers are shown as their tag and how they are written in full.
pub proof fn lemma_numbers_are_shown<W: Fn(Number, Option<usize>) -> String>(
    write: W,
    single: Single,
    double: Double,
    value: Seq<char>,
    text: Seq<char>,
)
    ensures
        is_written(write, Number::Single(single), None, value) ==> is_arg_text(
            write,
            crate::osc::ArgView::Float(single),
            "f:"@ + value,
        ),
        is_written(write, Number::Double(double), None, value) ==> is_arg_text(
            write,
            crate::osc::ArgView::Double(double),
            "d:"@ + value,
        ),
        is_arg_text(write, crate::osc::ArgView::Float(single), text) ==> exists|v: Seq<char>|
            #[trigger] is_written(write, Number::Single(single), None, v) && text == "f:"@ + v,
        is_arg_text(write, crate::osc::ArgView::Double(double), text) ==> exists|v: Seq<char>|
            #[trigger] is_written(write, Number::Double(double), None, v) && text == "d:"@ + v,
{
    let f = "f:"@ + value;
    let d = "d:"@ + value;
    if is_written(write, Number::Single(single), None, value) {
        assert(is_tagged(write, "f:"@, Number::Single(single), f));
    }
    if is_written(write, Number::Double(double), None, value) {
        assert(is_tagged(write, "d:"@, Number::Double(double), d));
    }
}

/// Every other argument has one text: its tag and its value.
pub proof fn lemma_arguments_are_shown<W: Fn(Number, Option<usize>) -> String>(
    write: W,
    short: i32,
    long: i64,
    b: bool,
    s: Seq<char>,
    c: char,
    q: (u8, u8, u8, u8),
    bytes: Seq<u8>,
    time: crate::osc::TimeTag,
    items: Seq<crate::osc::ArgView>,
    text: Seq<char>,
)
    ensures
        is_arg_text(write, crate::osc::ArgView::Int(short), text) <==> text == "i:"@
            + crate::text::signed_decimal(short as int),
        is_arg_text(write, crate::osc::ArgView::Long(long), text) <==> text == "h:"@
            + crate::text::signed_decimal(long as int),
        b ==> (is_arg_text(write, crate::osc::ArgView::Bool(b), text) <==> text == "b:"@
            + "true"@),
        !b ==> (is_arg_text(write, crate::osc::ArgView::Bool(b), text) <==> text == "b:"@
            + "false"@),
        is_arg_text(write, crate::osc::ArgView::String(s), text) <==> text == "s:"@
            + crate::text::truncated(s, 32),
        is_arg_text(write, crate::osc::ArgView::Char(c), text) <==> text == "c:"@ + seq![c],
        is_arg_text(write, crate::osc::ArgView::Color(q.0, q.1, q.2, q.3), text) <==> text
            == "r:"@ + crate::text::hex(q.0) + crate::text::hex(q.1) + crate::text::hex(q.2)
            + crate::text::hex(q.3),
        is_arg_text(write, crate::osc::ArgView::Blob(bytes), text) <==> text == "blob["@
            + crate::text::decimal(bytes.len()) + "]"@,
        is_arg_text(write, crate::osc::ArgView::Time(time), text) <==> text == "t:<timetag>"@,
        is_arg_text(write, crate::osc::ArgView::Midi(q.0, q.1, q.2, q.3), text) <==> text
            == "m:<midi>"@,
        is_arg_text(write, crate::osc::ArgView::Array(items), text) <==> text == "a["@
            + crate::text::decimal(items.len()) + "]"@,
        is_arg_text(write, crate::osc::ArgView::Nil, text) <==> text == "N"@,
        is_arg_text(write, crate::osc::ArgView::Inf, text) <==> text == "I"@,
{
    assert("c:"@ + seq![c] =~= "c:"@.push(c));
}

/// The raw line of a message is `raw`, the sender, the address and the
/// arguments, with tabs between them.
pub proof fn lemma_raw_lines<W: Fn(Number, Option<usize>) -> String>(
    write: W,
    peer: Seq<char>,
    message: crate::osc::MessageView,
    line: Seq<char>,
)
    ensures
        is_raw_line(write, peer, message, line) <==> exists|args: Seq<char>|
            #[trigger] is_args_text(write, message.args, args) && line == "raw"@ + seq!['\t'] + peer
                + seq!['\t'] + message.addr + seq!['\t'] + args,
{
    assert forall|args: Seq<char>|
        joined(seq!["raw"@, peer, message.addr, args], '\t') == #[trigger] ("raw"@ + seq!['\t']
            + peer + seq!['\t'] + message.addr + seq!['\t'] + args) by {
        let four = seq!["raw"@, peer, message.addr, args];
        let three = seq!["raw"@, peer, message.addr];
        let two = seq!["raw"@, peer];
        assert(four.drop_last() =~= three);
        assert(three.drop_last() =~= two);
        assert(two.drop_last() =~= seq!["raw"@]);
        assert(joined(seq!["raw"@], '\t') == "raw"@);
        assert(joined(two, '\t') =~= "raw"@ + seq!['\t'] + peer);
        assert(joined(three, '\t') =~= "raw"@ + seq!['\t'] + peer + seq!['\t'] + message.addr);
        assert(joined(four, '\t') =~= "raw"@ + seq!['\t'] + peer + seq!['\t'] + message.addr
            + seq!['\t'] + args);
    }
}

/// There is one raw line for each message, in the same order.
pub proof fn lemma_one_raw_line_for_each_message<W: Fn(Number, Option<usize>) -> String>(
    write: W,
    peer: Seq<char>,
    messages: Seq<crate::osc::MessageView>,
    lines: Seq<String>,
    i: int,
)
    requires
        are_raw_lines(write, peer, messages, lines),
    ensures
        lines.len() == messages.len(),
        0 <= i < lines.len() ==> is_raw_line(write, peer, messages[i], lines[i]@),
{
}

} // verus!
