//! Strings as sequences of characters.

use vstd::prelude::*;
use vstd::string::StringSliceAdditionalSpecFns;
use crate::number::Order;

verus! {

/// The characters of a string, in order.
pub fn characters(text: &str) -> (chars: Vec<char>)
    ensures
        chars@ == text@,
{
    let mut chars: Vec<char> = Vec::new();
    for c in it: text.chars()
        invariant
            it.seq() == text@,
            chars@ =~= text@.take(it.index() as int),
    {
        chars.push(c);
    }
    assert(text@.take(text@.len() as int) =~= text@);
    chars
}

/// How two texts stand to each other from position `at` on, character by
/// character; where one ends first, it is the lesser.
pub open spec fn text_order_from(left: Seq<char>, right: Seq<char>, at: nat) -> Order
    decreases left.len() - at,
{
    if at >= left.len() {
        if at >= right.len() {
            Order::Equal
        } else {
            Order::Less
        }
    } else if at >= right.len() {
        Order::Greater
    } else if (left[at as int] as u32) < (right[at as int] as u32) {
        Order::Less
    } else if (left[at as int] as u32) > (right[at as int] as u32) {
        Order::Greater
    } else {
        text_order_from(left, right, at + 1)
    }
}

/// The lexicographic order of two texts.
pub open spec fn text_order(left: Seq<char>, right: Seq<char>) -> Order {
    text_order_from(left, right, 0)
}

/// The lexicographic order of two strings.
pub fn order_texts(left: &str, right: &str) -> (order: Order)
    ensures
        order == text_order(left@, right@),
{
    let left_chars = characters(left);
    let right_chars = characters(right);
    let mut at: usize = 0;
    loop
        invariant
            left_chars@ == left@,
            right_chars@ == right@,
            at <= left_chars.len(),
            at <= right_chars.len(),
            text_order_from(left@, right@, at as nat) == text_order(left@, right@),
        decreases left_chars.len() - at,
    {
        if at >= left_chars.len() {
            if at >= right_chars.len() {
                return Order::Equal;
            } else {
                return Order::Less;
            }
        } else if at >= right_chars.len() {
            return Order::Greater;
        }
        let a = left_chars[at] as u32;
        let b = right_chars[at] as u32;
        if a < b {
            return Order::Less;
        } else if a > b {
            return Order::Greater;
        }
        at += 1;
    }
}

/// Whether two strings hold the same characters.
pub fn same_text(left: &str, right: &str) -> (same: bool)
    ensures
        same == (left@ == right@),
{
    let left_bytes = left.as_bytes();
    let right_bytes = right.as_bytes();
    proof {
        // Texts with the same bytes are the same text.
        vstd::utf8::encode_utf8_decode_utf8(left@);
        vstd::utf8::encode_utf8_decode_utf8(right@);
    }
    if left_bytes.len() != right_bytes.len() {
        return false;
    }
    let mut i: usize = 0;
    while i < left_bytes.len()
        invariant
            i <= left_bytes.len(),
            left_bytes.len() == right_bytes.len(),
            left_bytes@ == left.spec_bytes(),
            right_bytes@ == right.spec_bytes(),
            forall|j: int| 0 <= j < i ==> left_bytes[j] == right_bytes[j],
        decreases left_bytes.len() - i,
    {
        if left_bytes[i] != right_bytes[i] {
            return false;
        }
        i += 1;
    }
    assert(left_bytes@ =~= right_bytes@);
    true
}

/// Whether a character is white space: one of the code points with the
/// Unicode property `White_Space`.
pub open spec fn is_white_space(c: char) -> bool {
    let code = c as u32;
    ||| 0x09 <= code <= 0x0d
    ||| code == 0x20
    ||| code == 0x85
    ||| code == 0xa0
    ||| code == 0x1680
    ||| 0x2000 <= code <= 0x200a
    ||| code == 0x2028
    ||| code == 0x2029
    ||| code == 0x202f
    ||| code == 0x205f
    ||| code == 0x3000
}

/// Whether a character is white space.
pub fn white_space(c: char) -> (white: bool)
    ensures
        white == is_white_space(c),
{
    let code = c as u32;
    (0x09 <= code && code <= 0x0d) || code == 0x20 || code == 0x85 || code == 0xa0 || code
        == 0x1680 || (0x2000 <= code && code <= 0x200a) || code == 0x2028 || code == 0x2029
        || code == 0x202f || code == 0x205f || code == 0x3000
}

/// The value of a decimal digit, if the character is one.
pub open spec fn digit_value(c: char) -> Option<int> {
    if '0' <= c <= '9' {
        Some(c as u32 - '0' as u32)
    } else {
        None
    }
}

/// Whether every character is a decimal digit.
pub open spec fn all_digits(text: Seq<char>) -> bool {
    forall|i: int| 0 <= i < text.len() ==> digit_value(#[trigger] text[i]) is Some
}

/// The number that the first `count` digits spell.
pub open spec fn digits_value(text: Seq<char>, count: nat) -> int
    decreases count,
{
    if count == 0 {
        0
    } else {
        digits_value(text, (count - 1) as nat) * 10 + digit_value(text[count - 1])->0
    }
}

/// The integer that a text spells: decimal digits, at least one, after an
/// optional sign. `None` for any other text.
pub open spec fn integer_of(text: Seq<char>) -> Option<int> {
    if text.len() > 0 && (text[0] == '-' || text[0] == '+') {
        let digits = text.skip(1);
        if digits.len() > 0 && all_digits(digits) {
            Some(
                if text[0] == '-' {
                    -digits_value(digits, digits.len())
                } else {
                    digits_value(digits, digits.len())
                },
            )
        } else {
            None
        }
    } else if text.len() > 0 && all_digits(text) {
        Some(digits_value(text, text.len()))
    } else {
        None
    }
}

/// The 128-bit integer that a text spells, if it spells one that fits.
pub open spec fn read_integer(text: Seq<char>) -> Option<i128> {
    match integer_of(text) {
        Some(integer) => if i128::MIN <= integer <= i128::MAX {
            Some(integer as i128)
        } else {
            None
        },
        None => None,
    }
}

/// Reads a 128-bit integer from a text.
pub fn parse_integer(text: &str) -> (integer: Option<i128>)
    ensures
        integer == read_integer(text@),
{
    let chars = characters(text);
    if chars.len() == 0 {
        return None;
    }
    let negative = chars[0] == '-';
    let start: usize = if chars[0] == '-' || chars[0] == '+' {
        1
    } else {
        0
    };
    if start >= chars.len() {
        assert(text@.skip(1).len() == 0);
        return None;
    }
    let ghost digits = text@.skip(start as int);
    let ghost signed = text@[0] == '-' || text@[0] == '+';
    assert(text@.skip(0) =~= text@);
    // The digits are summed up below zero, where the range is larger by one.
    let mut below: i128 = 0;
    let mut fits = true;
    let mut at: usize = start;
    while at < chars.len()
        invariant
            start <= at <= chars.len(),
            chars@ == text@,
            digits == text@.skip(start as int),
            digits.len() == chars.len() - start,
            signed == (text@[0] == '-' || text@[0] == '+'),
            signed == (start == 1),
            !signed ==> digits == text@,
            negative == (text@[0] == '-'),
            forall|i: int| 0 <= i < at - start ==> digit_value(#[trigger] digits[i]) is Some,
            fits ==> below == -digits_value(digits, (at - start) as nat),
            !fits ==> -digits_value(digits, (at - start) as nat) < i128::MIN,
            below <= 0,
        decreases chars.len() - at,
    {
        let c = chars[at];
        assert(digits[at - start] == c);
        if !('0' <= c && c <= '9') {
            assert(digit_value(digits[at - start]) is None);
            assert(!all_digits(digits));
            return None;
        }
        let digit = (c as u32 - '0' as u32) as i128;
        assert(digit == digit_value(c)->0);
        assert(digits_value(digits, (at - start + 1) as nat) == digits_value(
            digits,
            (at - start) as nat,
        ) * 10 + digit);
        if fits {
            match below.checked_mul(10) {
                Some(shifted) => match shifted.checked_sub(digit) {
                    Some(next) => {
                        below = next;
                    },
                    None => {
                        fits = false;
                    },
                },
                None => {
                    fits = false;
                },
            }
        }
        at += 1;
    }
    assert(all_digits(digits));
    assert(digits.len() == chars.len() - start);
    if !fits {
        return None;
    }
    if negative {
        Some(below)
    } else {
        0i128.checked_sub(below)
    }
}

} // verus!
