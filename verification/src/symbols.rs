//! The seven Roman symbols, their values, and the legal subtractive pairs.

use vstd::prelude::*;
use crate::error::ErrorKind;

verus! {

/// Value of a single Roman symbol; 0 marks a character that is no Roman
/// symbol at all.
pub open spec fn char_value(c: char) -> int {
    if c == 'I' {
        1
    } else if c == 'V' {
        5
    } else if c == 'X' {
        10
    } else if c == 'L' {
        50
    } else if c == 'C' {
        100
    } else if c == 'D' {
        500
    } else if c == 'M' {
        1000
    } else {
        0
    }
}

/// Whether `c` is one of the seven Roman symbols.
pub open spec fn is_roman_char(c: char) -> bool {
    char_value(c) != 0
}

/// The six legal subtractive pairs, by component value: I before V or X,
/// X before L or C, C before D or M.
pub open spec fn valid_pair(low: int, high: int) -> bool {
    ||| (low == 1 && (high == 5 || high == 10))
    ||| (low == 10 && (high == 50 || high == 100))
    ||| (low == 100 && (high == 500 || high == 1000))
}

/// Maps a Roman symbol to its value, or reports it as unknown.
pub fn roman_char_to_value(c: char) -> (r: Result<i32, ErrorKind>)
    ensures
        is_roman_char(c) ==> r == Ok::<i32, ErrorKind>(char_value(c) as i32),
        !is_roman_char(c) ==> r == Err::<i32, ErrorKind>(ErrorKind::UnknownSymbol),
{
    match c {
        'I' => Ok(1),
        'V' => Ok(5),
        'X' => Ok(10),
        'L' => Ok(50),
        'C' => Ok(100),
        'D' => Ok(500),
        'M' => Ok(1000),
        _ => Err(ErrorKind::UnknownSymbol),
    }
}

} // verus!
