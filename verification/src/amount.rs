//! Money as fixed-point decimals with four fractional digits.

use vstd::prelude::*;
use vstd::string::*;

use crate::text::{
    all_digits, digits_value, is_digit, lemma_beyond_ascii, scan_digits, MINUS, PLUS, POINT,
};

verus! {

/// The amount of a single transaction, in ten-thousandths of a unit.
pub type Amount = i64;

/// A running balance, in ten-thousandths of a unit. Balances are sums of
/// many amounts, so they are kept in a wider type than a single amount.
pub type Balance = i128;

/// The largest whole part an amount can have.
const WHOLE_MAX: u64 = 922_337_203_685_477;

/// `text` without the sign it may start with.
pub open spec fn without_sign(text: Seq<char>) -> Seq<char> {
    if text.len() > 0 && (text[0] == '+' || text[0] == '-') {
        text.skip(1)
    } else {
        text
    }
}

/// Where the first decimal point of `text` stands; the length of `text`
/// where it has none.
pub open spec fn point_index(text: Seq<char>) -> int
    decreases text.len(),
{
    if text.len() == 0 || text[0] == '.' {
        0
    } else {
        1 + point_index(text.skip(1))
    }
}

/// What stands before the first decimal point.
pub open spec fn whole_part(text: Seq<char>) -> Seq<char> {
    text.take(point_index(text))
}

/// What stands after the first decimal point.
pub open spec fn fraction_part(text: Seq<char>) -> Seq<char> {
    if point_index(text) < text.len() {
        text.skip(point_index(text) + 1)
    } else {
        Seq::empty()
    }
}

/// What a fraction of `digits` digits is multiplied by to count
/// ten-thousandths.
pub open spec fn fraction_scale(digits: int) -> int {
    if digits <= 0 {
        10_000
    } else if digits == 1 {
        1_000
    } else if digits == 2 {
        100
    } else if digits == 3 {
        10
    } else {
        1
    }
}

/// The number of ten-thousandths that the unsigned decimal `text` spells:
/// digits, then optionally a point and up to four more digits, with at
/// least one digit in all.
pub open spec fn magnitude(text: Seq<char>) -> Option<int> {
    let whole = whole_part(text);
    let fraction = fraction_part(text);
    if all_digits(whole) && all_digits(fraction) && whole.len() + fraction.len() > 0
        && fraction.len() <= 4 {
        Some(
            digits_value(whole) * 10_000 + digits_value(fraction) * fraction_scale(
                fraction.len() as int,
            ),
        )
    } else {
        None
    }
}

/// The amount that `text` spells, if it spells one: an optional sign and an
/// unsigned decimal whose magnitude an [`Amount`] can hold.
pub open spec fn amount_value(text: Seq<char>) -> Option<int> {
    match magnitude(without_sign(text)) {
        Some(m) => if m > i64::MAX {
            None
        } else if text[0] == '-' {
            Some(-m)
        } else {
            Some(m)
        },
        None => None,
    }
}

/// The first decimal point stands where `point_index` says, and nowhere
/// before.
pub proof fn lemma_point_index(text: Seq<char>)
    ensures
        0 <= point_index(text) <= text.len(),
        point_index(text) < text.len() ==> text[point_index(text)] == '.',
        forall|j: int| 0 <= j < point_index(text) ==> text[j] != '.',
    decreases text.len(),
{
    if text.len() == 0 || text[0] == '.' {
    } else {
        let rest = text.skip(1);
        lemma_point_index(rest);
        assert forall|j: int| 0 <= j < point_index(text) implies text[j] != '.' by {
            if j > 0 {
                assert(text[j] == rest[j - 1]);
            }
        }
    }
}

/// Up to four digits spell less than ten thousand ten-thousandths.
pub proof fn lemma_fraction_bound(digits: Seq<char>)
    requires
        all_digits(digits),
        digits.len() <= 4,
    ensures
        0 <= digits_value(digits) * fraction_scale(digits.len() as int) <= 9_999,
        digits.len() == 0 ==> digits_value(digits) == 0,
        digits.len() == 1 ==> digits_value(digits) <= 9,
        digits.len() == 2 ==> digits_value(digits) <= 99,
        digits.len() == 3 ==> digits_value(digits) <= 999,
        digits.len() == 4 ==> digits_value(digits) <= 9_999,
    decreases digits.len(),
{
    if digits.len() > 0 {
        lemma_fraction_bound(digits.drop_last());
    }
}

/// Reads an amount: an optional sign, digits, and optionally a decimal point
/// followed by up to four digits, with at least one digit in all.
pub fn parse_amount(text: &str) -> (amount: Option<Amount>)
    ensures
        match amount {
            Some(a) => amount_value(text@) == Some(a as int),
            None => amount_value(text@) is None,
        },
{
    if !text.is_ascii() {
        proof {
            let at = lemma_beyond_ascii(text@);
            let body = without_sign(text@);
            let inner = if body.len() < text@.len() {
                at - 1
            } else {
                at
            };
            lemma_point_index(body);
            let point = point_index(body);
            if inner < point {
                assert(!is_digit(whole_part(body)[inner]));
            } else {
                assert(!is_digit(fraction_part(body)[inner - point - 1]));
            }
        }
        return None;
    }
    let bytes = text.as_bytes();
    let negative = bytes.len() > 0 && bytes[0] == MINUS;
    let start: usize = if bytes.len() > 0 && (bytes[0] == PLUS || bytes[0] == MINUS) {
        1
    } else {
        0
    };
    let body = text.substring_ascii(start, bytes.len());
    let digits = body.as_bytes();
    assert(body@ =~= without_sign(text@));
    let (point, whole) = scan_digits(body, 0, WHOLE_MAX);
    proof {
        lemma_point_index(body@);
        if point_index(body@) < point {
            assert(is_digit(body@.subrange(0, point as int)[point_index(body@)]));
        }
    }
    let mut fraction: u64 = 0;
    let mut places: usize = 0;
    let mut end: usize = point;
    if point < digits.len() && digits[point] == POINT {
        let (stop, value) = scan_digits(body, point + 1, 9_999);
        proof {
            let run = body@.subrange(point + 1, stop as int);
            assert(point_index(body@) == point);
            assert(whole_part(body@) =~= body@.subrange(0, point as int));
            if stop < digits.len() {
                assert(!is_digit(fraction_part(body@)[stop - point - 1]));
            } else {
                assert(fraction_part(body@) =~= run);
                if run.len() <= 4 {
                    lemma_fraction_bound(run);
                }
            }
        }
        end = stop;
        places = stop - point - 1;
        match value {
            Some(v) => {
                fraction = v;
            },
            None => {
                return None;
            },
        }
        if places > 4 {
            return None;
        }
    } else {
        proof {
            if point < digits.len() {
                assert(!is_digit(whole_part(body@)[point as int]));
            } else {
                assert(whole_part(body@) =~= body@.subrange(0, point as int));
                assert(fraction_part(body@) =~= Seq::<char>::empty());
            }
        }
    }
    if end != digits.len() || point + places == 0 {
        return None;
    }
    let scale: u64 = if places == 0 {
        10_000
    } else if places == 1 {
        1_000
    } else if places == 2 {
        100
    } else if places == 3 {
        10
    } else {
        1
    };
    let whole: u64 = match whole {
        Some(w) => w,
        None => {
            proof {
                lemma_fraction_bound(fraction_part(body@));
            }
            return None;
        },
    };
    proof {
        lemma_fraction_bound(fraction_part(body@));
    }
    let total: u64 = whole * 10_000 + fraction * scale;
    if total > 0x7fff_ffff_ffff_ffff {
        return None;
    }
    if negative {
        Some(-(total as i64))
    } else {
        Some(total as i64)
    }
}

/// The character that writes the digit `d`.
pub open spec fn digit_char(d: int) -> char {
    if d == 0 {
        '0'
    } else if d == 1 {
        '1'
    } else if d == 2 {
        '2'
    } else if d == 3 {
        '3'
    } else if d == 4 {
        '4'
    } else if d == 5 {
        '5'
    } else if d == 6 {
        '6'
    } else if d == 7 {
        '7'
    } else if d == 8 {
        '8'
    } else {
        '9'
    }
}

/// The decimal digits of `n`, without leading zeros; `"0"` for zero.
pub open spec fn decimal_text(n: nat) -> Seq<char>
    decreases n,
{
    if n < 10 {
        seq![digit_char(n as int)]
    } else {
        decimal_text(n / 10).push(digit_char((n % 10) as int))
    }
}

/// The four decimal digits of `n`, for `n` below ten thousand.
pub open spec fn fraction_text(n: nat) -> Seq<char> {
    seq![
        digit_char((n / 1000) as int),
        digit_char((n / 100 % 10) as int),
        digit_char((n / 10 % 10) as int),
        digit_char((n % 10) as int),
    ]
}

/// How a balance is written: a minus sign where it is below zero, the whole
/// units, a point, and the four digits of the ten-thousandths.
pub open spec fn balance_text(value: int) -> Seq<char> {
    if value < 0 {
        seq!['-'] + decimal_text(((-value) / 10_000) as nat) + seq!['.'] + fraction_text(
            ((-value) % 10_000) as nat,
        )
    } else {
        decimal_text((value / 10_000) as nat) + seq!['.'] + fraction_text((value % 10_000) as nat)
    }
}

/// The decimal digits of a number spell that number.
pub proof fn lemma_decimal_text_spells(n: nat)
    ensures
        decimal_text(n).len() > 0,
        all_digits(decimal_text(n)),
        digits_value(decimal_text(n)) == n,
    decreases n,
{
    let text = decimal_text(n);
    if n < 10 {
        assert(digits_value(text.drop_last()) == 0);
    } else {
        lemma_decimal_text_spells(n / 10);
        assert(text.drop_last() =~= decimal_text(n / 10));
    }
}

/// The four digits of a fraction spell that fraction.
pub proof fn lemma_fraction_text_spells(n: nat)
    requires
        n < 10_000,
    ensures
        fraction_text(n).len() == 4,
        all_digits(fraction_text(n)),
        digits_value(fraction_text(n)) == n,
{
    let four = fraction_text(n);
    let three = four.drop_last();
    let two = three.drop_last();
    let one = two.drop_last();
    assert(digits_value(one.drop_last()) == 0);
    assert(digits_value(one) == n / 1000);
    assert(digits_value(two) == 10 * digits_value(one) + n / 100 % 10);
    assert(digits_value(three) == 10 * digits_value(two) + n / 10 % 10);
    assert(digits_value(four) == 10 * digits_value(three) + n % 10);
}

/// Where digits are followed by a decimal point, the point is the first.
pub proof fn lemma_point_after_digits(digits: Seq<char>, rest: Seq<char>)
    requires
        all_digits(digits),
        rest.len() > 0,
        rest[0] == '.',
    ensures
        point_index(digits + rest) == digits.len(),
    decreases digits.len(),
{
    let text = digits + rest;
    if digits.len() > 0 {
        assert(is_digit(digits[0]) && text[0] == digits[0]);
        assert(text.skip(1) =~= digits.skip(1) + rest);
        lemma_point_after_digits(digits.skip(1), rest);
    }
}

/// What is written reads back: the text of every balance whose magnitude
/// an [`Amount`] can hold spells that balance.
pub proof fn lemma_balance_text_reads_back(value: int)
    requires
        -i64::MAX <= value <= i64::MAX,
    ensures
        amount_value(balance_text(value)) == Some(value),
{
    let m = if value < 0 {
        -value
    } else {
        value
    };
    let whole = decimal_text((m / 10_000) as nat);
    let fraction = fraction_text((m % 10_000) as nat);
    let rest = seq!['.'] + fraction;
    let body = whole + rest;
    let text = balance_text(value);
    lemma_decimal_text_spells((m / 10_000) as nat);
    lemma_fraction_text_spells((m % 10_000) as nat);
    lemma_point_after_digits(whole, rest);
    if value < 0 {
        assert(text =~= seq!['-'] + body);
        assert(without_sign(text) =~= body);
    } else {
        assert(text =~= body);
        assert(is_digit(whole[0]) && text[0] == whole[0]);
    }
    assert(whole_part(body) =~= whole);
    assert(fraction_part(body) =~= fraction);
    assert(magnitude(body) == Some(m));
}

/// The text of one digit.
fn digit_str(d: u8) -> (text: &'static str)
    requires
        d < 10,
    ensures
        text@ == seq![digit_char(d as int)],
{
    proof {
        reveal_strlit("0");
        reveal_strlit("1");
        reveal_strlit("2");
        reveal_strlit("3");
        reveal_strlit("4");
        reveal_strlit("5");
        reveal_strlit("6");
        reveal_strlit("7");
        reveal_strlit("8");
        reveal_strlit("9");
    }
    if d == 0 {
        "0"
    } else if d == 1 {
        "1"
    } else if d == 2 {
        "2"
    } else if d == 3 {
        "3"
    } else if d == 4 {
        "4"
    } else if d == 5 {
        "5"
    } else if d == 6 {
        "6"
    } else if d == 7 {
        "7"
    } else if d == 8 {
        "8"
    } else {
        "9"
    }
}

/// Appends the decimal digits of `n` to `out`.
pub fn push_decimal(out: &mut String, n: u128)
    ensures
        final(out)@ == old(out)@ + decimal_text(n as nat),
    decreases n,
{
    if n >= 10 {
        push_decimal(out, n / 10);
    }
    out.append(digit_str((n % 10) as u8));
}

/// Writes a balance with four fractional digits.
pub fn render_balance(value: Balance) -> (text: String)
    ensures
        text@ == balance_text(value as int),
{
    let mut text = String::new();
    let magnitude: u128 = if value < 0 {
        text.append("-");
        proof {
            reveal_strlit("-");
        }
        ((-(value + 1)) as u128) + 1
    } else {
        value as u128
    };
    push_decimal(&mut text, magnitude / 10_000);
    text.append(".");
    proof {
        reveal_strlit(".");
    }
    let fraction: u128 = magnitude % 10_000;
    text.append(digit_str((fraction / 1000) as u8));
    text.append(digit_str((fraction / 100 % 10) as u8));
    text.append(digit_str((fraction / 10 % 10) as u8));
    text.append(digit_str((fraction % 10) as u8));
    assert(text@ =~= balance_text(value as int));
    text
}

} // verus!
