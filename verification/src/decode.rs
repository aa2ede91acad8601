//! Decoder: Roman numeral string to Arabic integer, with strict grammar
//! validation.
//!
//! The grammar is stated as a small state machine, [`run`], folded over the
//! character sequence one group (single symbol or subtractive pair) at a
//! time. The executable [`to_arabic`] is proved to return exactly what the
//! state machine computes.

use vstd::prelude::*;
use crate::error::ErrorKind;
use crate::symbols::{char_value, is_roman_char, valid_pair, roman_char_to_value};

verus! {

/// The decoder's parse state: the running total, the value of the previous
/// group, what the previous subtractive pair (if any) looked like, and the
/// current run of equal additive symbols.
pub struct DecState {
    /// Sum of all group values consumed so far.
    pub total: int,
    /// Value of the previous group; starts at `i32::MAX` so the first group
    /// always passes the ordering rule.
    pub prev: int,
    /// Value of the symbol subtracted in the immediately preceding group if
    /// that group was a subtractive pair, 0 otherwise.
    pub sub_low: int,
    /// Whether the previous group was a subtractive pair.
    pub was_sub: bool,
    /// Low component value of the most recent subtractive pair.
    pub sub_x: int,
    /// High component value of the most recent subtractive pair.
    pub sub_y: int,
    /// Symbol value whose consecutive additive repetitions are being counted.
    pub rep_val: int,
    /// How many times `rep_val` has appeared consecutively.
    pub rep_count: int,
}

/// The state before any character has been consumed.
pub open spec fn init_state() -> DecState {
    DecState {
        total: 0,
        prev: i32::MAX as int,
        sub_low: 0,
        was_sub: false,
        sub_x: 0,
        sub_y: 0,
        rep_val: 0,
        rep_count: 0,
    }
}

/// Consumes one additive single-symbol group of value `cv`, checking the
/// adjacency, ordering and repetition rules in the order the decoder tests
/// them.
pub open spec fn additive_step(st: DecState, cv: int) -> Result<DecState, ErrorKind> {
    if st.was_sub && cv > st.sub_x && cv < st.sub_y {
        Err(ErrorKind::AdjacentSubtractiveConflict)
    } else if cv > st.prev {
        Err(ErrorKind::OrderViolation)
    } else if st.sub_low == cv {
        Err(ErrorKind::RepeatedAfterSubtraction)
    } else {
        let rc: int = if cv == st.rep_val {
            st.rep_count + 1
        } else {
            1
        };
        if (cv == 5 || cv == 50 || cv == 500) && rc > 1 {
            Err(ErrorKind::TooManyRepeats)
        } else if (cv == 1 || cv == 10 || cv == 100 || cv == 1000) && rc > 3 {
            Err(ErrorKind::TooManyRepeats)
        } else {
            Ok(
                DecState {
                    total: st.total + cv,
                    prev: cv,
                    sub_low: 0,
                    was_sub: false,
                    sub_x: st.sub_x,
                    sub_y: st.sub_y,
                    rep_val: cv,
                    rep_count: rc,
                },
            )
        }
    }
}

/// Runs the parse state machine over `s`: a single left-to-right pass that
/// consumes one or two characters per step and stops at the first violated
/// rule. A lower symbol before a higher one must form one of the six legal
/// subtractive pairs, whose value must not exceed the previous group's value;
/// anything else is an additive single-symbol group checked by
/// [`additive_step`].
pub open spec fn run(st: DecState, s: Seq<char>) -> Result<DecState, ErrorKind>
    decreases s.len(),
{
    if s.len() == 0 {
        Ok(st)
    } else if !is_roman_char(s[0]) {
        Err(ErrorKind::UnknownSymbol)
    } else {
        let cv: int = char_value(s[0]);
        if s.len() >= 2 && !is_roman_char(s[1]) {
            Err(ErrorKind::UnknownSymbol)
        } else if s.len() >= 2 && cv < char_value(s[1]) {
            let nv: int = char_value(s[1]);
            if !valid_pair(cv, nv) {
                Err(ErrorKind::InvalidSubtractivePair)
            } else if nv - cv > st.prev {
                Err(ErrorKind::OrderViolation)
            } else {
                run(
                    DecState {
                        total: st.total + (nv - cv),
                        prev: nv - cv,
                        sub_low: cv,
                        was_sub: true,
                        sub_x: cv,
                        sub_y: nv,
                        rep_val: 0,
                        rep_count: 0,
                    },
                    s.skip(2),
                )
            }
        } else {
            match additive_step(st, cv) {
                Ok(st2) => run(st2, s.skip(1)),
                Err(e) => Err(e),
            }
        }
    }
}

/// What the decoder returns: an error on the empty string, otherwise the
/// total accumulated by the state machine, or the first rule it violates.
pub open spec fn spec_to_arabic(s: Seq<char>) -> Result<int, ErrorKind> {
    if s.len() == 0 {
        Err(ErrorKind::EmptyInput)
    } else {
        match run(init_state(), s) {
            Ok(st) => Ok(st.total),
            Err(e) => Err(e),
        }
    }
}

/// Whether `r` is the decoding of `s`: the machine's total on success, and
/// the first rule violated during the left-to-right scan on failure.
pub open spec fn decodes_to(s: Seq<char>, r: Result<i32, ErrorKind>) -> bool {
    match spec_to_arabic(s) {
        Ok(v) => r is Ok && r->Ok_0 == v,
        Err(e) => r == Err::<i32, ErrorKind>(e),
    }
}

/// Converts a Roman numeral string to its Arabic value, or reports the first
/// (leftmost) violated grammar rule. The length bound keeps the running
/// total inside `i32` on every input, valid or not.
pub fn to_arabic(roman: String) -> (r: Result<i32, ErrorKind>)
    requires
        roman@.len() <= 2_000_000,
    ensures
        decodes_to(roman@, r),
{
    let s = roman.as_str();
    let len = s.unicode_len();
    if len == 0 {
        return Err(ErrorKind::EmptyInput);
    }
    let mut total: i32 = 0;
    let mut prev: i32 = i32::MAX;
    let mut sub_low: i32 = 0;
    let mut was_sub: bool = false;
    let mut sub_x: i32 = 0;
    let mut sub_y: i32 = 0;
    let mut rep_val: i32 = 0;
    let mut rep_count: i32 = 0;
    let mut i: usize = 0;
    proof {
        assert(roman@.skip(0) =~= roman@);
    }
    while i < len
        invariant
            len == roman@.len(),
            len <= 2_000_000,
            s@ == roman@,
            i <= len,
            total <= 1000 * i,
            0 <= total,
            0 <= rep_count <= i,
            run(
                (DecState {
                    total: total as int,
                    prev: prev as int,
                    sub_low: sub_low as int,
                    was_sub: was_sub,
                    sub_x: sub_x as int,
                    sub_y: sub_y as int,
                    rep_val: rep_val as int,
                    rep_count: rep_count as int,
                }),
                roman@.skip(i as int),
            ) == run(init_state(), roman@),
        decreases len - i,
    {
        proof {
            assert(roman@.skip(i as int)[0] == roman@[i as int]);
        }
        let c = s.get_char(i);
        let cv: i32 = match roman_char_to_value(c) {
            Ok(v) => v,
            Err(e) => {
                return Err(e);
            },
        };
        if i + 1 < len {
            proof {
                assert(roman@.skip(i as int)[1] == roman@[i as int + 1]);
            }
            let next = s.get_char(i + 1);
            let nv: i32 = match roman_char_to_value(next) {
                Ok(v) => v,
                Err(e) => {
                    return Err(e);
                },
            };
            if cv < nv {
                let is_valid_combo = (cv == 1 && (nv == 5 || nv == 10)) || (cv == 10 && (nv == 50
                    || nv == 100)) || (cv == 100 && (nv == 500 || nv == 1000));
                if !is_valid_combo {
                    return Err(ErrorKind::InvalidSubtractivePair);
                }
                let group_value = nv - cv;
                if group_value > prev {
                    return Err(ErrorKind::OrderViolation);
                }
                proof {
                    assert(roman@.skip(i as int).skip(2) =~= roman@.skip(i as int + 2));
                }
                total += group_value;
                prev = group_value;
                sub_low = cv;
                was_sub = true;
                sub_x = cv;
                sub_y = nv;
                rep_val = 0;
                rep_count = 0;
                i += 2;
                continue;
            }
        }
        if was_sub && cv > sub_x && cv < sub_y {
            return Err(ErrorKind::AdjacentSubtractiveConflict);
        }
        if cv > prev {
            return Err(ErrorKind::OrderViolation);
        }
        if sub_low == cv {
            return Err(ErrorKind::RepeatedAfterSubtraction);
        }
        let rc: i32 = if cv == rep_val {
            rep_count + 1
        } else {
            1
        };
        if (cv == 5 || cv == 50 || cv == 500) && rc > 1 {
            return Err(ErrorKind::TooManyRepeats);
        }
        if (cv == 1 || cv == 10 || cv == 100 || cv == 1000) && rc > 3 {
            return Err(ErrorKind::TooManyRepeats);
        }
        proof {
            assert(roman@.skip(i as int).skip(1) =~= roman@.skip(i as int + 1));
        }
        total += cv;
        prev = cv;
        sub_low = 0;
        was_sub = false;
        rep_val = cv;
        rep_count = rc;
        i += 1;
    }
    proof {
        assert(roman@.skip(len as int) =~= Seq::<char>::empty());
    }
    Ok(total)
}

} // verus!
