//! The canonical numeral, one decimal digit at a time.
//!
//! Every canonical Roman numeral splits into four independent pieces, one per
//! decimal digit of the value, written with that digit's "one", "five" and
//! "ten" symbols. This module relates the greedy encoder to that digit form
//! and shows how the decoder's state machine walks through one digit's piece.

use vstd::prelude::*;
use vstd::seq_lib::lemma_concat_associative;
use crate::decode::{additive_step, run, DecState};
use crate::encode::{lemma_greedy_step, spec_to_roman};
use crate::error::ErrorKind;
use crate::symbols::{char_value, is_roman_char, valid_pair};

verus! {

/// The Roman writing of one decimal digit `d`, given that digit's "one"
/// symbol `o`, "five" symbol `f` and "ten" symbol `t` (for the units:
/// `I`, `V`, `X`).
pub open spec fn digit_seq(d: int, o: char, f: char, t: char) -> Seq<char> {
    if d == 1 {
        seq![o]
    } else if d == 2 {
        seq![o, o]
    } else if d == 3 {
        seq![o, o, o]
    } else if d == 4 {
        seq![o, f]
    } else if d == 5 {
        seq![f]
    } else if d == 6 {
        seq![f, o]
    } else if d == 7 {
        seq![f, o, o]
    } else if d == 8 {
        seq![f, o, o, o]
    } else if d == 9 {
        seq![o, t]
    } else {
        Seq::<char>::empty()
    }
}

/// What the parse state must look like on entering the piece for the place
/// with "one" value `p`: the previous group at least as big as any group of
/// this piece, and all memory of subtracted symbols and repetition runs
/// belonging to strictly higher places.
pub open spec fn seg_entry(st: DecState, p: int) -> bool {
    &&& st.prev >= 9 * p
    &&& (st.sub_low == 0 || st.sub_low >= 10 * p)
    &&& (st.was_sub ==> st.sub_x >= 5 * p)
    &&& (st.rep_val == 0 || st.rep_val >= 10 * p)
}

/// The parse state after consuming digit `d`'s piece at the place with "one"
/// value `p`, starting from `st`.
pub open spec fn digit_exit(st: DecState, d: int, p: int) -> DecState {
    if d == 0 {
        st
    } else if d == 4 {
        DecState {
            total: st.total + 4 * p,
            prev: 4 * p,
            sub_low: p,
            was_sub: true,
            sub_x: p,
            sub_y: 5 * p,
            rep_val: 0,
            rep_count: 0,
        }
    } else if d == 9 {
        DecState {
            total: st.total + 9 * p,
            prev: 9 * p,
            sub_low: p,
            was_sub: true,
            sub_x: p,
            sub_y: 10 * p,
            rep_val: 0,
            rep_count: 0,
        }
    } else if d == 5 {
        DecState {
            total: st.total + 5 * p,
            prev: 5 * p,
            sub_low: 0,
            was_sub: false,
            sub_x: st.sub_x,
            sub_y: st.sub_y,
            rep_val: 5 * p,
            rep_count: 1,
        }
    } else if d <= 3 {
        DecState {
            total: st.total + d * p,
            prev: p,
            sub_low: 0,
            was_sub: false,
            sub_x: st.sub_x,
            sub_y: st.sub_y,
            rep_val: p,
            rep_count: d,
        }
    } else {
        DecState {
            total: st.total + d * p,
            prev: p,
            sub_low: 0,
            was_sub: false,
            sub_x: st.sub_x,
            sub_y: st.sub_y,
            rep_val: p,
            rep_count: d - 5,
        }
    }
}

/// Shape facts about one digit's piece: its length, and which symbols stand
/// at its ends.
pub proof fn lemma_digit_seq_bounds(d: int, o: char, f: char, t: char, p: int)
    requires
        0 <= d <= 9,
        p >= 1,
        char_value(o) == p,
        4 <= d <= 8 ==> char_value(f) == 5 * p,
        d == 9 ==> char_value(t) == 10 * p,
    ensures
        d == 0 ==> digit_seq(d, o, f, t).len() == 0,
        d >= 1 ==> digit_seq(d, o, f, t).len() > 0,
        d >= 1 ==> {
            let s = digit_seq(d, o, f, t);
            &&& is_roman_char(s[0])
            &&& char_value(s[0]) <= 5 * p
            &&& is_roman_char(s.last())
            &&& char_value(s.last()) >= p
            &&& (s[0] == o || s[0] == f)
            &&& (s.last() == o || s.last() == f || s.last() == t)
        },
{
}

/// Running the state machine over digit `d`'s piece succeeds and adds
/// `d * p` to the total, provided the entry state carries no memory that the
/// piece's symbols could collide with; the exit state is exact, and is again
/// a legal entry state for the next lower place.
pub proof fn lemma_run_digit(st: DecState, d: int, o: char, f: char, t: char, p: int)
    requires
        0 <= d <= 9,
        p == 1 || p == 10 || p == 100 || (p == 1000 && d <= 3),
        char_value(o) == p,
        4 <= d <= 8 ==> char_value(f) == 5 * p,
        d == 9 ==> char_value(t) == 10 * p,
        seg_entry(st, p),
    ensures
        run(st, digit_seq(d, o, f, t)) == Ok::<DecState, ErrorKind>(digit_exit(st, d, p)),
        seg_entry(digit_exit(st, d, p), p / 10),
        digit_exit(st, d, p).total == st.total + d * p,
{
    let s = digit_seq(d, o, f, t);
    if d == 0 {
    } else if d == 1 {
        let st1 = additive_step(st, p)->Ok_0;
        assert(run(st, s) == run(st1, s.skip(1)));
        assert(s.skip(1) =~= Seq::<char>::empty());
        assert(run(st1, Seq::<char>::empty()) == Ok::<DecState, ErrorKind>(st1));
    } else if d == 2 {
        let st1 = additive_step(st, p)->Ok_0;
        let st2 = additive_step(st1, p)->Ok_0;
        assert(run(st, s) == run(st1, s.skip(1)));
        assert(s.skip(1) =~= seq![o]);
        assert(run(st1, seq![o]) == run(st2, seq![o].skip(1)));
        assert(seq![o].skip(1) =~= Seq::<char>::empty());
        assert(run(st2, Seq::<char>::empty()) == Ok::<DecState, ErrorKind>(st2));
    } else if d == 3 {
        let st1 = additive_step(st, p)->Ok_0;
        let st2 = additive_step(st1, p)->Ok_0;
        let st3 = additive_step(st2, p)->Ok_0;
        assert(run(st, s) == run(st1, s.skip(1)));
        assert(s.skip(1) =~= seq![o, o]);
        assert(run(st1, seq![o, o]) == run(st2, seq![o, o].skip(1)));
        assert(seq![o, o].skip(1) =~= seq![o]);
        assert(run(st2, seq![o]) == run(st3, seq![o].skip(1)));
        assert(seq![o].skip(1) =~= Seq::<char>::empty());
        assert(run(st3, Seq::<char>::empty()) == Ok::<DecState, ErrorKind>(st3));
    } else if d == 4 {
        assert(valid_pair(p, 5 * p));
        assert(run(st, s) == run(digit_exit(st, d, p), s.skip(2)));
        assert(s.skip(2) =~= Seq::<char>::empty());
    } else if d == 5 {
        let st1 = additive_step(st, 5 * p)->Ok_0;
        assert(run(st, s) == run(st1, s.skip(1)));
        assert(s.skip(1) =~= Seq::<char>::empty());
        assert(run(st1, Seq::<char>::empty()) == Ok::<DecState, ErrorKind>(st1));
    } else if d == 6 {
        let st1 = additive_step(st, 5 * p)->Ok_0;
        let st2 = additive_step(st1, p)->Ok_0;
        assert(run(st, s) == run(st1, s.skip(1)));
        assert(s.skip(1) =~= seq![o]);
        assert(run(st1, seq![o]) == run(st2, seq![o].skip(1)));
        assert(seq![o].skip(1) =~= Seq::<char>::empty());
        assert(run(st2, Seq::<char>::empty()) == Ok::<DecState, ErrorKind>(st2));
    } else if d == 7 {
        let st1 = additive_step(st, 5 * p)->Ok_0;
        let st2 = additive_step(st1, p)->Ok_0;
        let st3 = additive_step(st2, p)->Ok_0;
        assert(run(st, s) == run(st1, s.skip(1)));
        assert(s.skip(1) =~= seq![o, o]);
        assert(run(st1, seq![o, o]) == run(st2, seq![o, o].skip(1)));
        assert(seq![o, o].skip(1) =~= seq![o]);
        assert(run(st2, seq![o]) == run(st3, seq![o].skip(1)));
        assert(seq![o].skip(1) =~= Seq::<char>::empty());
        assert(run(st3, Seq::<char>::empty()) == Ok::<DecState, ErrorKind>(st3));
    } else if d == 8 {
        let st1 = additive_step(st, 5 * p)->Ok_0;
        let st2 = additive_step(st1, p)->Ok_0;
        let st3 = additive_step(st2, p)->Ok_0;
        let st4 = additive_step(st3, p)->Ok_0;
        assert(run(st, s) == run(st1, s.skip(1)));
        assert(s.skip(1) =~= seq![o, o, o]);
        assert(run(st1, seq![o, o, o]) == run(st2, seq![o, o, o].skip(1)));
        assert(seq![o, o, o].skip(1) =~= seq![o, o]);
        assert(run(st2, seq![o, o]) == run(st3, seq![o, o].skip(1)));
        assert(seq![o, o].skip(1) =~= seq![o]);
        assert(run(st3, seq![o]) == run(st4, seq![o].skip(1)));
        assert(seq![o].skip(1) =~= Seq::<char>::empty());
        assert(run(st4, Seq::<char>::empty()) == Ok::<DecState, ErrorKind>(st4));
    } else {
        assert(valid_pair(p, 10 * p));
        assert(run(st, s) == run(digit_exit(st, d, p), s.skip(2)));
        assert(s.skip(2) =~= Seq::<char>::empty());
    }
}

/// The greedy encoding of a single-digit value is that digit's piece.
pub proof fn lemma_decompose_units(u: int)
    requires
        0 <= u <= 9,
    ensures
        spec_to_roman(u) == digit_seq(u, 'I', 'V', 'X'),
    decreases u,
{
    if u == 0 {
    } else if u <= 3 {
        lemma_greedy_step(u, 12);
        lemma_decompose_units(u - 1);
        assert(digit_seq(u, 'I', 'V', 'X') =~= seq!['I'] + digit_seq(u - 1, 'I', 'V', 'X'));
    } else if u == 4 {
        lemma_greedy_step(u, 11);
        assert(digit_seq(4, 'I', 'V', 'X') =~= seq!['I', 'V'] + spec_to_roman(0));
    } else if u <= 8 {
        lemma_greedy_step(u, 10);
        lemma_decompose_units(u - 5);
        assert(digit_seq(u, 'I', 'V', 'X') =~= seq!['V'] + digit_seq(u - 5, 'I', 'V', 'X'));
    } else {
        lemma_greedy_step(u, 9);
        assert(digit_seq(9, 'I', 'V', 'X') =~= seq!['I', 'X'] + spec_to_roman(0));
    }
}

/// The greedy encoding of a two-digit value is the tens piece followed by
/// the units piece.
pub proof fn lemma_decompose_tens(x: int, u: int)
    requires
        0 <= x <= 9,
        0 <= u <= 9,
    ensures
        spec_to_roman(10 * x + u) == digit_seq(x, 'X', 'L', 'C') + digit_seq(u, 'I', 'V', 'X'),
    decreases x,
{
    let n = 10 * x + u;
    if x == 0 {
        lemma_decompose_units(u);
        assert(Seq::<char>::empty() + digit_seq(u, 'I', 'V', 'X') =~= digit_seq(u, 'I', 'V', 'X'));
    } else if x <= 3 {
        lemma_greedy_step(n, 8);
        lemma_decompose_tens(x - 1, u);
        assert(digit_seq(x, 'X', 'L', 'C') + digit_seq(u, 'I', 'V', 'X') =~= seq!['X'] + (digit_seq(
            x - 1,
            'X',
            'L',
            'C',
        ) + digit_seq(u, 'I', 'V', 'X')));
    } else if x == 4 {
        lemma_greedy_step(n, 7);
        lemma_decompose_units(u);
        assert(digit_seq(4, 'X', 'L', 'C') + digit_seq(u, 'I', 'V', 'X') =~= seq!['X', 'L']
            + digit_seq(u, 'I', 'V', 'X'));
    } else if x <= 8 {
        lemma_greedy_step(n, 6);
        lemma_decompose_tens(x - 5, u);
        assert(digit_seq(x, 'X', 'L', 'C') + digit_seq(u, 'I', 'V', 'X') =~= seq!['L'] + (digit_seq(
            x - 5,
            'X',
            'L',
            'C',
        ) + digit_seq(u, 'I', 'V', 'X')));
    } else {
        lemma_greedy_step(n, 5);
        lemma_decompose_units(u);
        assert(digit_seq(9, 'X', 'L', 'C') + digit_seq(u, 'I', 'V', 'X') =~= seq!['X', 'C']
            + digit_seq(u, 'I', 'V', 'X'));
    }
}

/// The greedy encoding of a three-digit value is the hundreds piece followed
/// by the tens and units pieces.
pub proof fn lemma_decompose_hundreds(h: int, x: int, u: int)
    requires
        0 <= h <= 9,
        0 <= x <= 9,
        0 <= u <= 9,
    ensures
        spec_to_roman(100 * h + 10 * x + u) == digit_seq(h, 'C', 'D', 'M') + digit_seq(
            x,
            'X',
            'L',
            'C',
        ) + digit_seq(u, 'I', 'V', 'X'),
    decreases h,
{
    let n = 100 * h + 10 * x + u;
    let xs = digit_seq(x, 'X', 'L', 'C');
    let us = digit_seq(u, 'I', 'V', 'X');
    if h == 0 {
        lemma_decompose_tens(x, u);
        assert(Seq::<char>::empty() + xs =~= xs);
    } else if h <= 3 {
        lemma_greedy_step(n, 4);
        lemma_decompose_hundreds(h - 1, x, u);
        let hs = digit_seq(h - 1, 'C', 'D', 'M');
        assert(digit_seq(h, 'C', 'D', 'M') =~= seq!['C'] + hs);
        lemma_concat_associative(seq!['C'], hs, xs);
        lemma_concat_associative(seq!['C'], hs + xs, us);
    } else if h == 4 {
        lemma_greedy_step(n, 3);
        lemma_decompose_tens(x, u);
        assert(digit_seq(4, 'C', 'D', 'M') =~= seq!['C', 'D']);
        lemma_concat_associative(seq!['C', 'D'], xs, us);
    } else if h <= 8 {
        lemma_greedy_step(n, 2);
        lemma_decompose_hundreds(h - 5, x, u);
        let hs = digit_seq(h - 5, 'C', 'D', 'M');
        assert(digit_seq(h, 'C', 'D', 'M') =~= seq!['D'] + hs);
        lemma_concat_associative(seq!['D'], hs, xs);
        lemma_concat_associative(seq!['D'], hs + xs, us);
    } else {
        lemma_greedy_step(n, 1);
        lemma_decompose_tens(x, u);
        assert(digit_seq(9, 'C', 'D', 'M') =~= seq!['C', 'M']);
        lemma_concat_associative(seq!['C', 'M'], xs, us);
    }
}

/// The greedy encoding of any value up to 3999 is the concatenation of its
/// four decimal digits' pieces.
pub proof fn lemma_decompose(t: int, h: int, x: int, u: int)
    requires
        0 <= t <= 3,
        0 <= h <= 9,
        0 <= x <= 9,
        0 <= u <= 9,
    ensures
        spec_to_roman(1000 * t + 100 * h + 10 * x + u) == digit_seq(t, 'M', 'M', 'M') + digit_seq(
            h,
            'C',
            'D',
            'M',
        ) + digit_seq(x, 'X', 'L', 'C') + digit_seq(u, 'I', 'V', 'X'),
    decreases t,
{
    let n = 1000 * t + 100 * h + 10 * x + u;
    let hs = digit_seq(h, 'C', 'D', 'M');
    let xs = digit_seq(x, 'X', 'L', 'C');
    let us = digit_seq(u, 'I', 'V', 'X');
    if t == 0 {
        lemma_decompose_hundreds(h, x, u);
        assert(Seq::<char>::empty() + hs =~= hs);
    } else {
        lemma_greedy_step(n, 0);
        lemma_decompose(t - 1, h, x, u);
        let ts = digit_seq(t - 1, 'M', 'M', 'M');
        assert(digit_seq(t, 'M', 'M', 'M') =~= seq!['M'] + ts);
        lemma_concat_associative(seq!['M'], ts, hs);
        lemma_concat_associative(seq!['M'], ts + hs, xs);
        lemma_concat_associative(seq!['M'], ts + hs + xs, us);
    }
}

} // verus!
