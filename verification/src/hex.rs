//! Hexadecimal digits, written and read.

use vstd::prelude::*;
use vstd::string::StringExecFns;

verus! {

/// The ASCII code of the upper-case hexadecimal digit of a value below 16.
pub open spec fn hex_code(value: int) -> u8 {
    if value < 10 {
        (48 + value) as u8
    } else {
        (55 + value) as u8
    }
}

/// The upper-case hexadecimal digit of a value below 16.
pub open spec fn hex_char(value: int) -> char {
    hex_code(value) as char
}

/// The value of a hexadecimal digit, given by its ASCII code, of either case.
pub open spec fn hex_value(code: u8) -> Option<int> {
    if 48 <= code <= 57 {
        Some(code - 48)
    } else if 65 <= code <= 70 {
        Some(code - 55)
    } else if 97 <= code <= 102 {
        Some(code - 87)
    } else {
        None
    }
}

/// The value of a digit that is known to be hexadecimal.
pub open spec fn hex_digit(code: u8) -> int {
    hex_value(code).unwrap()
}

/// A digit has the value that it was written for.
pub proof fn lemma_hex_value_of_code(value: int)
    requires
        0 <= value < 16,
    ensures
        hex_value(hex_code(value)) == Some(value),
        hex_char(value) as u8 == hex_code(value),
        hex_code(value) < 128,
{
}

/// Appends the upper-case hexadecimal digit of `value` to `text`.
pub fn push_hex(text: &mut String, value: u8)
    requires
        value < 16,
    ensures
        final(text)@ == old(text)@.push(hex_char(value as int)),
{
    let digit: &'static str = match value {
        0 => "0",
        1 => "1",
        2 => "2",
        3 => "3",
        4 => "4",
        5 => "5",
        6 => "6",
        7 => "7",
        8 => "8",
        9 => "9",
        10 => "A",
        11 => "B",
        12 => "C",
        13 => "D",
        14 => "E",
        _ => "F",
    };
    proof {
        reveal_strlit("0");
        reveal_strlit("1");
        reveal_strlit("2");
        reveal_strlit("3");
        reveal_strlit("4");
        reveal_strlit("5");
        reveal_strlit("6");
        reveal_strlit("7");
        reveal_strlit("8");
        reveal_strlit("9");
        reveal_strlit("A");
        reveal_strlit("B");
        reveal_strlit("C");
        reveal_strlit("D");
        reveal_strlit("E");
        reveal_strlit("F");
    }
    text.append(digit);
    assert(text@ =~= old(text)@.push(hex_char(value as int)));
}

/// Reads a hexadecimal digit of either case.
pub fn hex_digit_value(code: u8) -> (value: Option<u8>)
    ensures
        match value {
            Some(v) => hex_value(code) == Some(v as int),
            None => hex_value(code).is_none(),
        },
{
    if 48 <= code && code <= 57 {
        Some(code - 48)
    } else if 65 <= code && code <= 70 {
        Some(code - 55)
    } else if 97 <= code && code <= 102 {
        Some(code - 87)
    } else {
        None
    }
}

/// Reads a byte from two hexadecimal digits, the first of which is worth 16
/// times the second.
pub fn hex_pair(high: u8, low: u8) -> (value: Option<u8>)
    ensures
        match value {
            Some(v) => hex_value(high).is_some() && hex_value(low).is_some() && v == 16 * hex_digit(
                high,
            ) + hex_digit(low),
            None => hex_value(high).is_none() || hex_value(low).is_none(),
        },
{
    match hex_digit_value(high) {
        Some(h) => match hex_digit_value(low) {
            Some(l) => Some(16 * h + l),
            None => None,
        },
        None => None,
    }
}

} // verus!
