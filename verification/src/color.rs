//! Colours written as hexadecimal digits.

use vstd::prelude::*;
use vstd::string::StrSliceExecFns;
use crate::{ArgError, ErrorKind};

verus! {

/// The value of a hexadecimal digit, in either case.
pub open spec fn hex_value(c: char) -> Option<nat> {
    if '0' <= c <= '9' {
        Some((c as nat - '0' as nat) as nat)
    } else if 'a' <= c <= 'f' {
        Some((c as nat - 'a' as nat + 10) as nat)
    } else if 'A' <= c <= 'F' {
        Some((c as nat - 'A' as nat + 10) as nat)
    } else {
        None
    }
}

/// The text without one `#` in front and one `#` at the end, where it has them.
pub open spec fn strip_hash(s: Seq<char>) -> Seq<char> {
    let front: int = if s.len() > 0 && s[0] == '#' { 1 } else { 0 };
    let back: int = if s.len() > front && s.last() == '#' { s.len() - 1 } else { s.len() as int };
    s.subrange(front, back)
}

/// Whether every character of the text is a hexadecimal digit.
pub open spec fn all_hex(digits: Seq<char>) -> bool {
    forall|i: int| 0 <= i < digits.len() ==> (#[trigger] hex_value(digits[i])) is Some
}

/// The byte that a pair of digits spells.
pub open spec fn byte_of_pair(digits: Seq<char>, at: int) -> u8 {
    (16 * hex_value(digits[at]).unwrap() + hex_value(digits[at + 1]).unwrap()) as u8
}

/// The byte that a single digit stands for: the digit is the high nibble and
/// the low nibble is zero.
pub open spec fn byte_of_nibble(digits: Seq<char>, at: int) -> u8 {
    (16 * hex_value(digits[at]).unwrap()) as u8
}

/// The colour that a text spells, if it spells one: six digits give red,
/// green and blue a pair each, three digits a high nibble each.
pub open spec fn color_of(s: Seq<char>) -> Option<(u8, u8, u8)> {
    let digits = strip_hash(s);
    if digits.len() == 6 && all_hex(digits) {
        Some((byte_of_pair(digits, 0), byte_of_pair(digits, 2), byte_of_pair(digits, 4)))
    } else if digits.len() == 3 && all_hex(digits) {
        Some((byte_of_nibble(digits, 0), byte_of_nibble(digits, 1), byte_of_nibble(digits, 2)))
    } else {
        None
    }
}

/// The value of one hexadecimal digit.
pub fn hex_digit(c: char) -> (r: Option<u8>)
    ensures
        match hex_value(c) {
            Some(v) => r == Some(v as u8) && v < 16,
            None => r is None,
        },
{
    if '0' <= c && c <= '9' {
        Some(c as u8 - '0' as u8)
    } else if 'a' <= c && c <= 'f' {
        Some(c as u8 - 'a' as u8 + 10)
    } else if 'A' <= c && c <= 'F' {
        Some(c as u8 - 'A' as u8 + 10)
    } else {
        None
    }
}

/// Reads a colour of three or six hexadecimal digits, with or without a `#`
/// around it.
pub fn color_from_hex(s: &str) -> (r: Result<(u8, u8, u8), ArgError>)
    ensures
        match color_of(s@) {
            Some(rgb) => r == Ok::<(u8, u8, u8), ArgError>(rgb),
            None => r matches Err(e) && e.reports(ErrorKind::InvalidColor, s@),
        },
{
    let total = s.unicode_len();
    let front: usize = if total > 0 && s.get_char(0) == '#' { 1 } else { 0 };
    let back: usize = if total > front && s.get_char(total - 1) == '#' { total - 1 } else { total };
    let count = back - front;
    if count != 3 && count != 6 {
        return Err(ArgError { kind: ErrorKind::InvalidColor, token: s.to_owned() });
    }
    let ghost digits = strip_hash(s@);
    let mut values: Vec<u8> = Vec::new();
    let mut i: usize = front;
    while i < back
        invariant
            front <= i <= back <= total,
            total == s@.len(),
            digits == s@.subrange(front as int, back as int),
            digits == strip_hash(s@),
            values@.len() == i - front,
            forall|k: int| 0 <= k < values@.len() ==> hex_value(digits[k]) == Some(#[trigger] values@[k] as nat),
            forall|k: int| 0 <= k < values@.len() ==> values@[k] < 16,
        decreases back - i,
    {
        let c = s.get_char(i);
        assert(digits[i - front] == c);
        match hex_digit(c) {
            Some(v) => {
                values.push(v);
            },
            None => {
                assert(hex_value(digits[i - front]) is None);
                assert(!all_hex(digits));
                return Err(ArgError { kind: ErrorKind::InvalidColor, token: s.to_owned() });
            },
        }
        i += 1;
    }
    assert(all_hex(digits)) by {
        assert forall|k: int| 0 <= k < digits.len() implies (#[trigger] hex_value(digits[k])) is Some by {
            assert(hex_value(digits[k]) == Some(values@[k] as nat));
        }
    }
    if count == 6 {
        Ok((values[0] * 16 + values[1], values[2] * 16 + values[3], values[4] * 16 + values[5]))
    } else {
        Ok((values[0] * 16, values[1] * 16, values[2] * 16))
    }
}

} // verus!
