//! Operations on text that the standard library provides.

use vstd::prelude::*;
use vstd::string::*;

verus! {

/// `String::push` appends the given character to the end of the string.
pub assume_specification[ String::push ](s: &mut String, c: char)
    ensures
        final(s)@ == old(s)@.push(c),
;

/// What `String::from_utf16_lossy` makes of a sequence of UTF-16 code units:
/// the characters they encode, with the replacement character in place of
/// each unpaired surrogate.
pub uninterp spec fn utf16_lossy(units: Seq<u16>) -> Seq<char>;

/// Decodes UTF-16 code units with `String::from_utf16_lossy`, which never
/// fails. The result is a function of the units alone; the contract gives it
/// the name [`utf16_lossy`].
#[verifier::external_body]
pub(crate) fn decode_utf16(units: &[u16]) -> (text: String)
    ensures
        text@ == utf16_lossy(units@),
{
    String::from_utf16_lossy(units)
}

/// Turns bytes into the text they encode with `String::from_utf8`, which
/// accepts exactly the byte sequences that are valid UTF-8.
#[verifier::external_body]
pub(crate) fn text_from_utf8(bytes: Vec<u8>) -> (text: Option<String>)
    ensures
        match text {
            Some(text) => vstd::utf8::valid_utf8(bytes@) && text@ == vstd::utf8::decode_utf8(
                bytes@,
            ),
            None => !vstd::utf8::valid_utf8(bytes@),
        },
{
    String::from_utf8(bytes).ok()
}

/// What `str::to_lowercase` makes of a text: its lowercase equivalent under
/// the Unicode rules.
pub uninterp spec fn lowercase(text: Seq<char>) -> Seq<char>;

/// Lowercases `text` with `str::to_lowercase`. The result is a function of
/// the text alone; the contract gives it the name [`lowercase`].
#[verifier::external_body]
pub(crate) fn to_lowercase(text: &str) -> (lower: String)
    ensures
        lower@ == lowercase(text@),
{
    text.to_lowercase()
}

/// The character whose code point is the byte `b` (Latin-1).
pub open spec fn latin1_char(b: u8) -> char {
    b as char
}

/// The text whose characters have the given bytes as code points.
pub open spec fn latin1(bytes: Seq<u8>) -> Seq<char> {
    Seq::new(bytes.len(), |i: int| latin1_char(bytes[i]))
}

/// Appends to `out` the first `count` bytes of `bytes`, each as the
/// character with that code point.
pub fn push_latin1(out: &mut String, bytes: &[u8], count: usize)
    requires
        count <= bytes@.len(),
    ensures
        final(out)@ == old(out)@ + latin1(bytes@.subrange(0, count as int)),
{
    let mut i: usize = 0;
    while i < count
        invariant
            i <= count <= bytes@.len(),
            out@ == old(out)@ + latin1(bytes@.subrange(0, i as int)),
        decreases count - i,
    {
        out.push(bytes[i] as char);
        assert(out@ =~= old(out)@ + latin1(bytes@.subrange(0, i + 1)));
        i += 1;
    }
}

/// The text that `bytes` stand for: the text that they encode as UTF-8, or,
/// where they are no valid UTF-8, the characters with the bytes as code
/// points.
pub open spec fn decoded(bytes: Seq<u8>) -> Seq<char> {
    if vstd::utf8::valid_utf8(bytes) {
        vstd::utf8::decode_utf8(bytes)
    } else {
        latin1(bytes)
    }
}

/// Appends to `out` the text that the first `count` bytes of `bytes` stand
/// for.
pub fn push_decoded(out: &mut String, bytes: &[u8], count: usize)
    requires
        count <= bytes@.len(),
    ensures
        final(out)@ == old(out)@ + decoded(bytes@.subrange(0, count as int)),
{
    let mut front: Vec<u8> = Vec::new();
    let mut i: usize = 0;
    while i < count
        invariant
            i <= count <= bytes@.len(),
            front@ == bytes@.subrange(0, i as int),
        decreases count - i,
    {
        front.push(bytes[i]);
        assert(front@ =~= bytes@.subrange(0, i + 1));
        i += 1;
    }
    match text_from_utf8(front) {
        Some(text) => {
            out.append(text.as_str());
        },
        None => {
            push_latin1(out, bytes, count);
        },
    }
}

/// Whether two texts are the same.
pub fn same_text(first: &str, second: &str) -> (same: bool)
    ensures
        same == (first@ == second@),
{
    let len = first.unicode_len();
    if len != second.unicode_len() {
        return false;
    }
    let mut i: usize = 0;
    while i < len
        invariant
            i <= len,
            len == first@.len(),
            len == second@.len(),
            first@.subrange(0, i as int) == second@.subrange(0, i as int),
        decreases len - i,
    {
        if first.get_char(i) != second.get_char(i) {
            assert(first@.subrange(0, i + 1)[i as int] != second@.subrange(0, i + 1)[i as int]);
            assert(first@[i as int] != second@[i as int]);
            return false;
        }
        assert(first@.subrange(0, i + 1) =~= first@.subrange(0, i as int).push(first@[i as int]));
        assert(second@.subrange(0, i + 1) =~= second@.subrange(0, i as int).push(
            second@[i as int],
        ));
        i += 1;
    }
    assert(first@ =~= first@.subrange(0, len as int));
    assert(second@ =~= second@.subrange(0, len as int));
    true
}

/// The character that stands for the digit `digit`, which is less than 16:
/// `0` to `9`, then `A` to `F`.
pub open spec fn digit_char(digit: int) -> char {
    if digit < 10 {
        (0x30 + digit) as u8 as char
    } else {
        (0x41 + digit - 10) as u8 as char
    }
}

/// The decimal digits of `value`, without leading zeros.
pub open spec fn decimal(value: nat) -> Seq<char>
    decreases value,
{
    if value < 10 {
        seq![digit_char(value as int)]
    } else {
        decimal(value / 10).push(digit_char((value % 10) as int))
    }
}

/// `digits` behind as many zeros as it takes to fill `width` places.
pub open spec fn zero_padded(digits: Seq<char>, width: nat) -> Seq<char>
    decreases width - digits.len(),
{
    if digits.len() >= width {
        digits
    } else {
        zero_padded(seq!['0'] + digits, width)
    }
}

/// The two hexadecimal digits of `byte`, in upper case.
pub open spec fn hex_byte(byte: u8) -> Seq<char> {
    seq![digit_char(byte as int / 16), digit_char(byte as int % 16)]
}

/// Returns the character that stands for the digit `digit`.
pub fn digit(value: u8) -> (c: char)
    requires
        value < 16,
    ensures
        c == digit_char(value as int),
{
    if value < 10 {
        (0x30 + value) as char
    } else {
        (0x41 + value - 10) as char
    }
}

/// Appends to `out` the decimal digits of `value`, behind as many zeros as
/// it takes to fill `width` places.
pub fn push_decimal(out: &mut String, value: u64, width: usize)
    ensures
        final(out)@ == old(out)@ + zero_padded(decimal(value as nat), width as nat),
{
    let mut digits: Vec<char> = Vec::new();
    let mut rest = value;
    // The digits are found last first.
    while rest >= 10
        invariant
            decimal(value as nat) == decimal(rest as nat) + digits@.reverse(),
        decreases rest,
    {
        let ghost before = digits@;
        digits.push(digit((rest % 10) as u8));
        proof {
            assert(digits@.reverse() =~= seq![digit_char((rest % 10) as int)] + before.reverse());
            assert(decimal(rest as nat) == decimal((rest / 10) as nat).push(
                digit_char((rest % 10) as int),
            ));
            assert(decimal((rest / 10) as nat).push(digit_char((rest % 10) as int))
                + before.reverse() =~= decimal((rest / 10) as nat) + digits@.reverse());
        }
        rest = rest / 10;
    }
    let ghost before = digits@;
    digits.push(digit(rest as u8));
    proof {
        assert(digits@.reverse() =~= seq![digit_char(rest as int)] + before.reverse());
        assert(decimal(value as nat) =~= digits@.reverse());
    }
    let mut count = digits.len();
    let ghost mut text = digits@.reverse();
    while count < width
        invariant
            count == text.len(),
            zero_padded(decimal(value as nat), width as nat) == zero_padded(text, width as nat),
            text.len() >= digits@.len(),
            text.subrange(text.len() - digits@.len(), text.len() as int) == digits@.reverse(),
            forall|i: int| 0 <= i < text.len() - digits@.len() ==> text[i] == '0',
            out@ == old(out)@ + text.subrange(0, text.len() - digits@.len()),
        decreases width - count,
    {
        out.push('0');
        proof {
            let longer = seq!['0'] + text;
            assert(longer.subrange(longer.len() - digits@.len(), longer.len() as int) =~= text.subrange(
                text.len() - digits@.len(),
                text.len() as int,
            ));
            assert(longer.subrange(0, longer.len() - digits@.len()) =~= text.subrange(
                0,
                text.len() - digits@.len(),
            ).push('0'));
            text = longer;
        }
        count += 1;
    }
    let mut i = digits.len();
    while i > 0
        invariant
            i <= digits@.len(),
            text.len() >= digits@.len(),
            text.subrange(text.len() - digits@.len(), text.len() as int) == digits@.reverse(),
            out@ == old(out)@ + text.subrange(0, text.len() - i),
        decreases i,
    {
        i -= 1;
        out.push(digits[i]);
        proof {
            let start = text.len() - digits@.len();
            let position = text.len() - i - 1;
            assert(text[position] == text.subrange(start, text.len() as int)[position - start]);
            assert(digits@.reverse()[position - start] == digits@[i as int]);
            assert(text.subrange(0, text.len() - i) =~= text.subrange(0, position).push(
                text[position],
            ));
        }
    }
    proof {
        assert(text.subrange(0, text.len() as int) =~= text);
    }
}

/// Appends to `out` the two hexadecimal digits of `byte`, in upper case.
pub fn push_hex(out: &mut String, byte: u8)
    ensures
        final(out)@ == old(out)@ + hex_byte(byte),
{
    out.push(digit(byte / 16));
    out.push(digit(byte % 16));
    assert(out@ =~= old(out)@ + hex_byte(byte));
}

/// The number that the decimal digits `digits` stand for, if every one of
/// them is a digit.
pub open spec fn decimal_value(digits: Seq<char>) -> Option<nat>
    decreases digits.len(),
{
    if digits.len() == 0 {
        Some(0)
    } else {
        let last = digits.last();
        match decimal_value(digits.drop_last()) {
            Some(value) => if '0' <= last <= '9' {
                Some(10 * value + (last as u8 - 0x30) as nat)
            } else {
                None
            },
            None => None,
        }
    }
}

/// The number that `text` stands for: its decimal digits, which may follow a
/// plus sign, if there is at least one digit and nothing else.
pub open spec fn parsed_number(text: Seq<char>) -> Option<nat> {
    let digits = if text.len() > 0 && text[0] == '+' {
        text.subrange(1, text.len() as int)
    } else {
        text
    };
    if digits.len() == 0 {
        None
    } else {
        decimal_value(digits)
    }
}

/// The value of a number grows with its digits.
proof fn lemma_decimal_value_grows(digits: Seq<char>, shorter: int)
    requires
        0 <= shorter <= digits.len(),
        decimal_value(digits) is Some,
    ensures
        decimal_value(digits.subrange(0, shorter)) matches Some(value) && value <= decimal_value(
            digits,
        ).unwrap(),
    decreases digits.len() - shorter,
{
    if shorter < digits.len() {
        assert(digits.drop_last().subrange(0, shorter) =~= digits.subrange(0, shorter));
        lemma_decimal_value_grows(digits.drop_last(), shorter);
    } else {
        assert(digits.subrange(0, shorter) =~= digits);
    }
}

/// Once some digits of a text are no number, the text is none.
proof fn lemma_decimal_value_none(digits: Seq<char>, shorter: int)
    requires
        0 <= shorter <= digits.len(),
        decimal_value(digits.subrange(0, shorter)) is None,
    ensures
        decimal_value(digits) is None,
    decreases digits.len() - shorter,
{
    if shorter < digits.len() {
        assert(digits.drop_last().subrange(0, shorter) =~= digits.subrange(0, shorter));
        lemma_decimal_value_none(digits.drop_last(), shorter);
    } else {
        assert(digits.subrange(0, shorter) =~= digits);
    }
}

/// Reads `text` as a decimal number, as `str::parse` does for an unsigned
/// integer: the digits may follow a plus sign. Returns `None` if `text` is
/// no number or the number does not fit in 64 bits.
pub fn parse_number(text: &str) -> (number: Option<u64>)
    ensures
        match parsed_number(text@) {
            Some(value) => if value <= u64::MAX {
                number == Some(value as u64)
            } else {
                number is None
            },
            None => number is None,
        },
{
    let len = text.unicode_len();
    let start: usize = if len > 0 && text.get_char(0) == '+' {
        1
    } else {
        0
    };
    if start == len {
        return None;
    }
    let ghost digits = text@.subrange(start as int, len as int);
    let mut value: u64 = 0;
    let mut i = start;
    assert(digits.subrange(0, 0) =~= Seq::<char>::empty());
    assert(text@.subrange(0, len as int) =~= text@);
    while i < len
        invariant
            start <= i <= len,
            len == text@.len(),
            digits == text@.subrange(start as int, len as int),
            parsed_number(text@) == decimal_value(digits),
            decimal_value(digits.subrange(0, i - start)) == Some(value as nat),
        decreases len - i,
    {
        let c = text.get_char(i);
        proof {
            let next = digits.subrange(0, i + 1 - start);
            assert(next.drop_last() =~= digits.subrange(0, i - start));
            assert(next.last() == c);
        }
        if !(c >= '0' && c <= '9') {
            proof {
                lemma_decimal_value_none(digits, i + 1 - start);
            }
            return None;
        }
        let d = (c as u8 - 0x30) as u64;
        let next = match value.checked_mul(10) {
            Some(tens) => tens.checked_add(d),
            None => None,
        };
        match next {
            Some(next) => {
                value = next;
            },
            None => {
                proof {
                    let longer = digits.subrange(0, i + 1 - start);
                    assert(decimal_value(longer) == Some((10 * value + d) as nat));
                    if decimal_value(digits) is Some {
                        lemma_decimal_value_grows(digits, i + 1 - start);
                    }
                }
                return None;
            },
        }
        i += 1;
    }
    assert(digits.subrange(0, len - start) =~= digits);
    Some(value)
}

} // verus!
