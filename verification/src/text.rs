//! Text.

use vstd::prelude::*;
use vstd::string::*;

verus! {

/// `String::push`: appends one character.
pub assume_specification[ std::string::String::push ](s: &mut std::string::String, c: char)
    ensures
        final(s)@ == old(s)@.push(c),
;

/// Whether two texts are the same.
pub fn same_text(a: &str, b: &str) -> (result: bool)
    ensures
        result == (a@ == b@),
{
    let left = a.as_bytes();
    let right = b.as_bytes();
    proof {
        vstd::utf8::encode_utf8_decode_utf8(a@);
        vstd::utf8::encode_utf8_decode_utf8(b@);
    }
    if left.len() != right.len() {
        return false;
    }
    let mut i: usize = 0;
    while i < left.len()
        invariant
            i <= left@.len(),
            left@.len() == right@.len(),
            left@ == vstd::utf8::encode_utf8(a@),
            right@ == vstd::utf8::encode_utf8(b@),
            forall|j: int| 0 <= j < i ==> left@[j] == right@[j],
        decreases left@.len() - i,
    {
        if left[i] != right[i] {
            return false;
        }
        i = i + 1;
    }
    assert(left@ =~= right@);
    true
}

/// A digit of a number to a base of at most sixteen.
pub open spec fn digit(value: int) -> char {
    "0123456789abcdef"@[value]
}

/// A number in decimal digits.
pub open spec fn decimal(n: nat) -> Seq<char>
    decreases n,
{
    if n < 10 {
        seq![digit(n as int)]
    } else {
        decimal(n / 10).push(digit((n % 10) as int))
    }
}

/// A number in decimal digits, with its sign if it is negative.
pub open spec fn signed_decimal(n: int) -> Seq<char> {
    if n < 0 {
        seq!['-'] + decimal((-n) as nat)
    } else {
        decimal(n as nat)
    }
}

/// A byte in two hexadecimal digits.
pub open spec fn hex(byte: u8) -> Seq<char> {
    seq![digit(byte as int / 16), digit(byte as int % 16)]
}

/// A text cut to at most `n` characters, with an ellipsis where it was cut.
pub open spec fn truncated(text: Seq<char>, n: nat) -> Seq<char> {
    if text.len() <= n {
        text
    } else {
        text.take(n as int).push('\u{2026}')
    }
}

/// Appends a digit.
fn push_digit(out: &mut String, value: u8)
    requires
        value < 16,
    ensures
        final(out)@ == old(out)@.push(digit(value as int)),
{
    let digits = "0123456789abcdef";
    proof {
        reveal_strlit("0123456789abcdef");
    }
    out.push(digits.get_char(value as usize));
}

/// Appends a number in decimal digits.
pub fn push_decimal(out: &mut String, n: u64)
    ensures
        final(out)@ == old(out)@ + decimal(n as nat),
    decreases n,
{
    if n >= 10 {
        push_decimal(out, n / 10);
    }
    push_digit(out, (n % 10) as u8);
}

/// Appends a number in decimal digits, with its sign if it is negative.
pub fn push_signed_decimal(out: &mut String, n: i64)
    ensures
        final(out)@ == old(out)@ + signed_decimal(n as int),
{
    if n < 0 {
        out.push('-');
        push_decimal(out, (-(n as i128)) as u64);
    } else {
        push_decimal(out, n as u64);
    }
}

/// Appends a byte in two hexadecimal digits.
pub fn push_hex(out: &mut String, byte: u8)
    ensures
        final(out)@ == old(out)@ + hex(byte),
{
    push_digit(out, byte / 16);
    push_digit(out, byte % 16);
}

/// Cuts a text to at most `n` characters.
pub fn truncate_str(s: &str, n: usize) -> (result: String)
    ensures
        result@ == truncated(s@, n as nat),
{
    if s.unicode_len() <= n {
        s.to_owned()
    } else {
        let mut head: String = s.substring_char(0, n).to_owned();
        head.push('\u{2026}');
        head
    }
}

/// A text is never cut to more than one character over the limit, keeps its
/// beginning, and is left alone if it is short enough.
pub proof fn lemma_truncated_is_short(text: Seq<char>, n: nat)
    ensures
        truncated(text, n).len() <= n + 1,
        text.len() <= n ==> truncated(text, n) == text,
        text.len() > n ==> truncated(text, n).take(n as int) == text.take(n as int),
{
}

/// The value of a digit.
pub open spec fn digit_value(c: char) -> int {
    if '0' <= c <= '9' {
        c as int - '0' as int
    } else {
        c as int - 'a' as int + 10
    }
}

/// Whether a character is a decimal digit.
pub open spec fn is_decimal_digit(c: char) -> bool {
    '0' <= c <= '9'
}

/// The number that decimal digits stand for.
pub open spec fn decimal_value(text: Seq<char>) -> int
    decreases text.len(),
{
    if text.len() == 0 {
        0
    } else {
        10 * decimal_value(text.drop_last()) + digit_value(text.last())
    }
}

/// Each digit has its value, and those below ten are decimal digits.
pub proof fn lemma_digits(value: int)
    requires
        0 <= value < 16,
    ensures
        digit_value(digit(value)) == value,
        value < 10 ==> is_decimal_digit(digit(value)),
        value >= 10 ==> 'a' <= digit(value) <= 'f',
{
    reveal_strlit("0123456789abcdef");
}

/// A number is written in decimal digits that stand for it, without leading
/// zeros.
pub proof fn lemma_decimal_reads_back(n: nat)
    ensures
        decimal_value(decimal(n)) == n,
        decimal(n).len() > 0,
        forall|i: int|
            0 <= i < decimal(n).len() ==> is_decimal_digit(#[trigger] decimal(n)[i]),
        n > 0 ==> decimal(n)[0] != '0',
        n == 0 ==> decimal(n) == seq!['0'],
    decreases n,
{
    reveal_strlit("0123456789abcdef");
    let text = decimal(n);
    lemma_digits((n % 10) as int);
    if n < 10 {
        lemma_digits(n as int);
        assert(text.drop_last() =~= Seq::empty());
        assert(decimal_value(text.drop_last()) == 0);
        assert(text =~= seq![digit(n as int)]);
    } else {
        lemma_decimal_reads_back(n / 10);
        assert(text.drop_last() =~= decimal(n / 10));
        assert(text[0] == decimal(n / 10)[0]);
    }
}

/// A negative number is written as a minus sign and its opposite.
pub proof fn lemma_signed_decimal(n: int)
    ensures
        n >= 0 ==> signed_decimal(n) == decimal(n as nat),
        n < 0 ==> signed_decimal(n).len() > 0 && signed_decimal(n)[0] == '-' && signed_decimal(
            n,
        ).skip(1) == decimal((-n) as nat),
{
    if n < 0 {
        assert(signed_decimal(n).skip(1) =~= decimal((-n) as nat));
    }
}

/// A byte is written in two digits whose values give it back.
pub proof fn lemma_hex_reads_back(byte: u8)
    ensures
        hex(byte).len() == 2,
        16 * digit_value(hex(byte)[0]) + digit_value(hex(byte)[1]) == byte,
        forall|i: int|
            0 <= i < 2 ==> is_decimal_digit(#[trigger] hex(byte)[i]) || 'a' <= hex(byte)[i] <= 'f',
{
    lemma_digits(byte as int / 16);
    lemma_digits(byte as int % 16);
}

/// A text that is cut is one character longer than the limit, and that is an
/// ellipsis.
pub proof fn lemma_cut_texts_end_in_an_ellipsis(text: Seq<char>, n: nat)
    requires
        text.len() > n,
    ensures
        truncated(text, n).len() == n + 1,
        truncated(text, n).last() == '\u{2026}',
        forall|i: int| 0 <= i < n ==> #[trigger] truncated(text, n)[i] == text[i],
{
}

} // verus!
