//! Reading words and decimal numbers out of text.

use vstd::prelude::*;
use vstd::string::*;

verus! {

/// The byte of the plus sign.
pub const PLUS: u8 = 43;

/// The byte of the minus sign.
pub const MINUS: u8 = 45;

/// The byte of the decimal point.
pub const POINT: u8 = 46;

/// The byte of the digit zero.
pub const ZERO: u8 = 48;

/// The byte of the digit nine.
pub const NINE: u8 = 57;

/// Whether `c` is one of the ten decimal digits.
pub open spec fn is_digit(c: char) -> bool {
    '0' <= c && c <= '9'
}

/// The number a decimal digit stands for.
pub open spec fn digit_value(c: char) -> int {
    c as int - '0' as int
}

/// Whether `text` is made of decimal digits only.
pub open spec fn all_digits(text: Seq<char>) -> bool {
    forall|i: int| 0 <= i < text.len() ==> is_digit(#[trigger] text[i])
}

/// The number that the decimal digits of `text` spell. The empty text
/// spells zero.
pub open spec fn digits_value(text: Seq<char>) -> int
    decreases text.len(),
{
    if text.len() == 0 {
        0
    } else {
        10 * digits_value(text.drop_last()) + digit_value(text.last())
    }
}

/// `text` without the plus sign it may start with.
pub open spec fn without_plus(text: Seq<char>) -> Seq<char> {
    if text.len() > 0 && text[0] == '+' {
        text.skip(1)
    } else {
        text
    }
}

/// The unsigned number that `text` spells, if it spells one that is at most
/// `max`: an optional plus sign followed by at least one decimal digit.
pub open spec fn unsigned_value(text: Seq<char>, max: int) -> Option<int> {
    let digits = without_plus(text);
    if digits.len() > 0 && all_digits(digits) && digits_value(digits) <= max {
        Some(digits_value(digits))
    } else {
        None
    }
}

/// A text with a character outside ASCII has a character that is neither a
/// digit, nor a sign, nor a decimal point.
pub proof fn lemma_beyond_ascii(text: Seq<char>) -> (at: int)
    requires
        !vstd::utf8::is_ascii_chars(text),
    ensures
        0 <= at < text.len(),
        !('\0' <= text[at] <= '\u{7f}'),
{
    choose|i: int| 0 <= i < text.len() && !('\0' <= #[trigger] text[i] <= '\u{7f}')
}

/// Whether two texts are the same.
pub fn text_eq(text: &str, word: &str) -> (same: bool)
    ensures
        same == (text@ == word@),
{
    let left = text.as_bytes();
    let right = word.as_bytes();
    if left.len() != right.len() {
        return false;
    }
    let mut i: usize = 0;
    while i < left.len()
        invariant
            left@ == text.spec_bytes(),
            right@ == word.spec_bytes(),
            left.len() == right.len(),
            i <= left.len(),
            forall|j: int| 0 <= j < i ==> left@[j] == right@[j],
        decreases left.len() - i,
    {
        if left[i] != right[i] {
            return false;
        }
        i += 1;
    }
    proof {
        assert(left@ =~= right@);
        vstd::utf8::encode_utf8_decode_utf8(text@);
        vstd::utf8::encode_utf8_decode_utf8(word@);
    }
    true
}

/// Reads the run of decimal digits that starts at `from`. Returns where the
/// run ends and the number it spells, unless that number is above `cap`.
pub(crate) fn scan_digits(text: &str, from: usize, cap: u64) -> (run: (usize, Option<u64>))
    requires
        is_ascii(text),
        from <= text@.len(),
        cap <= 0x0fff_ffff_ffff_ffff,
    ensures
        from <= run.0 <= text@.len(),
        all_digits(text@.subrange(from as int, run.0 as int)),
        run.0 < text@.len() ==> !is_digit(text@[run.0 as int]),
        match run.1 {
            Some(value) => value == digits_value(text@.subrange(from as int, run.0 as int))
                && value <= cap,
            None => digits_value(text@.subrange(from as int, run.0 as int)) > cap,
        },
{
    let bytes = text.as_bytes();
    let mut i: usize = from;
    let mut value: u64 = 0;
    let mut over: bool = false;
    while i < bytes.len() && ZERO <= bytes[i] && bytes[i] <= NINE
        invariant
            is_ascii(text),
            bytes@ == text.spec_bytes(),
            from <= i <= text@.len(),
            cap <= 0x0fff_ffff_ffff_ffff,
            all_digits(text@.subrange(from as int, i as int)),
            !over ==> value == digits_value(text@.subrange(from as int, i as int)) && value <= cap,
            over ==> digits_value(text@.subrange(from as int, i as int)) > cap,
        decreases text@.len() - i,
    {
        proof {
            let grown = text@.subrange(from as int, i as int + 1);
            assert(grown.drop_last() =~= text@.subrange(from as int, i as int));
            assert(grown.last() == text@[i as int]);
        }
        if !over {
            let next: u64 = value * 10 + (bytes[i] - ZERO) as u64;
            if next > cap {
                over = true;
            } else {
                value = next;
            }
        }
        i += 1;
    }
    if over {
        (i, None)
    } else {
        (i, Some(value))
    }
}

/// Reads an unsigned number that is at most `max`.
fn parse_unsigned(text: &str, max: u64) -> (value: Option<u64>)
    requires
        max <= 0xffff_ffff,
    ensures
        match value {
            Some(v) => unsigned_value(text@, max as int) == Some(v as int),
            None => unsigned_value(text@, max as int) is None,
        },
{
    if !text.is_ascii() {
        proof {
            let at = lemma_beyond_ascii(text@);
            if text@[0] == '+' {
                assert(!is_digit(without_plus(text@)[at - 1]));
            } else {
                assert(!is_digit(without_plus(text@)[at]));
            }
        }
        return None;
    }
    let bytes = text.as_bytes();
    let start: usize = if bytes.len() > 0 && bytes[0] == PLUS {
        1
    } else {
        0
    };
    let (end, value) = scan_digits(text, start, max);
    proof {
        assert(without_plus(text@) =~= text@.subrange(start as int, text@.len() as int));
        if end < bytes.len() {
            assert(!is_digit(without_plus(text@)[end - start]));
        } else {
            assert(text@.subrange(start as int, end as int) =~= without_plus(text@));
        }
    }
    if end == start || end != bytes.len() {
        return None;
    }
    value
}

/// Reads a 16-bit unsigned number: an optional plus sign followed by at
/// least one decimal digit.
pub fn parse_u16(text: &str) -> (value: Option<u16>)
    ensures
        match value {
            Some(v) => unsigned_value(text@, 0xffff) == Some(v as int),
            None => unsigned_value(text@, 0xffff) is None,
        },
{
    match parse_unsigned(text, 0xffff) {
        Some(v) => Some(v as u16),
        None => None,
    }
}

/// Reads a 32-bit unsigned number: an optional plus sign followed by at
/// least one decimal digit.
pub fn parse_u32(text: &str) -> (value: Option<u32>)
    ensures
        match value {
            Some(v) => unsigned_value(text@, 0xffff_ffff) == Some(v as int),
            None => unsigned_value(text@, 0xffff_ffff) is None,
        },
{
    match parse_unsigned(text, 0xffff_ffff) {
        Some(v) => Some(v as u32),
        None => None,
    }
}

} // verus!
