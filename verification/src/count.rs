//! Reading a count from the text of a command line option.

use vstd::prelude::*;
use vstd::string::*;

verus! {

/// `c` is one of the ten decimal digits.
pub open spec fn is_digit(c: char) -> bool {
    '0' <= c <= '9'
}

/// The value of the decimal digit `c`.
pub open spec fn digit_value(c: char) -> nat
    recommends
        is_digit(c),
{
    (c as int - '0' as int) as nat
}

/// The number that the decimal digits `digits` write, the most significant
/// digit first; 0 for no digit.
pub open spec fn decimal_value(digits: Seq<char>) -> nat
    decreases digits.len(),
{
    if digits.len() == 0 {
        0
    } else {
        decimal_value(digits.drop_last()) * 10 + digit_value(digits.last())
    }
}

/// `text` without the plus sign that may stand in front of the digits.
pub open spec fn unsigned_part(text: Seq<char>) -> Seq<char> {
    if text.len() > 0 && text[0] == '+' {
        text.skip(1)
    } else {
        text
    }
}

/// Every element of `digits` is a decimal digit.
pub open spec fn all_digits(digits: Seq<char>) -> bool {
    forall|i: int| 0 <= i < digits.len() ==> is_digit(#[trigger] digits[i])
}

/// The count that `text` writes: `text` is one decimal digit or more, with or
/// without a plus sign before them, and the number fits in `usize`. Any
/// other text writes no count.
pub open spec fn count_of(text: Seq<char>) -> Option<usize> {
    let digits = unsigned_part(text);
    if digits.len() > 0 && all_digits(digits) && decimal_value(digits) <= usize::MAX {
        Some(decimal_value(digits) as usize)
    } else {
        None
    }
}

/// A number is not smaller than the number that its first digits write.
proof fn lemma_prefix_value(digits: Seq<char>, n: int)
    requires
        0 <= n <= digits.len(),
    ensures
        decimal_value(digits.take(n)) <= decimal_value(digits),
    decreases digits.len() - n,
{
    if n == digits.len() {
        assert(digits.take(n) =~= digits);
    } else {
        lemma_prefix_value(digits, n + 1);
        assert(digits.take(n + 1).drop_last() =~= digits.take(n));
    }
}

/// Reads a count from `text`.
pub fn parse_count(text: &str) -> (count: Option<usize>)
    ensures
        count == count_of(text@),
{
    broadcast use is_ascii_spec_bytes;

    let ghost digits = unsigned_part(text@);
    if !text.is_ascii() {
        proof {
            // A character beyond ASCII is no digit, and it is in the
            // unsigned part, since it is not the plus sign.
            let at = choose|i: int| 0 <= i < text@.len() && !('\0' <= #[trigger] text@[i] <= '\u{7f}');
            if text@[0] == '+' {
                assert(!is_digit(digits[at - 1]));
            }
        }
        return None;
    }
    let bytes = text.as_bytes();
    let length = bytes.len();
    let start: usize = if length > 0 && bytes[0] == 43 {
        1
    } else {
        0
    };
    if start == length {
        return None;
    }
    let mut value: usize = 0;
    let mut at: usize = start;
    while at < length
        invariant
            start <= at <= length,
            length == text@.len(),
            bytes@.len() == length,
            digits == unsigned_part(text@),
            digits == text@.skip(start as int),
            forall|i: int| 0 <= i < text@.len() ==> #[trigger] bytes@[i] == text@[i] as u8,
            forall|i: int| 0 <= i < text@.len() ==> '\0' <= #[trigger] text@[i] <= '\u{7f}',
            all_digits(digits.take(at - start)),
            value == decimal_value(digits.take(at - start)),
        decreases length - at,
    {
        let byte = bytes[at];
        let ghost c = text@[at as int];
        assert(c == digits[at - start]);
        if byte < 48 || byte > 57 {
            return None;
        }
        let digit = (byte - 48) as usize;
        assert(digits.take(at - start + 1).drop_last() =~= digits.take(at - start));
        if value > (usize::MAX - digit) / 10 {
            // The digits read so far write more than fits, and so do all.
            proof {
                lemma_prefix_value(digits, at - start + 1);
            }
            return None;
        }
        value = value * 10 + digit;
        at += 1;
    }
    assert(digits.take(at - start) =~= digits);
    Some(value)
}

} // verus!
