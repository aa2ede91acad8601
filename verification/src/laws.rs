//! The library's laws: the encoder's output decodes back to its input, and
//! never violates the repetition limits.

use vstd::prelude::*;
use vstd::seq_lib::lemma_concat_associative;
use crate::decode::{additive_step, decodes_to, init_state, run, spec_to_arabic, DecState};
use crate::digits::{
    digit_exit, digit_seq, lemma_decompose, lemma_digit_seq_bounds, lemma_run_digit,
};
use crate::encode::spec_to_roman;
use crate::error::ErrorKind;
use crate::symbols::{char_value, is_roman_char};

verus! {

/// Splitting a run at a point where the symbol value does not rise: if the
/// machine accepts `s1`, then running it over `s1 + s2` is running it over
/// `s2` from where `s1` left off. The value condition at the seam ensures the
/// machine does not read a subtractive pair across it.
pub proof fn lemma_run_append(st: DecState, s1: Seq<char>, s2: Seq<char>)
    requires
        run(st, s1) is Ok,
        s2.len() > 0 ==> is_roman_char(s2[0]),
        s1.len() > 0 && s2.len() > 0 ==> char_value(s1.last()) >= char_value(s2[0]),
    ensures
        run(st, s1 + s2) == run(run(st, s1)->Ok_0, s2),
    decreases s1.len(),
{
    if s1.len() == 0 {
        assert(s1 + s2 =~= s2);
    } else if s2.len() == 0 {
        assert(s1 + s2 =~= s1);
    } else {
        let s = s1 + s2;
        let cv: int = char_value(s1[0]);
        if s1.len() == 1 {
            let st1 = additive_step(st, cv)->Ok_0;
            assert(run(st, s1) == run(st1, s1.skip(1)));
            assert(s1.skip(1) =~= Seq::<char>::empty());
            assert(s.skip(1) =~= s2);
            assert(run(st, s) == run(st1, s2));
        } else {
            let nv: int = char_value(s1[1]);
            if cv < nv {
                let stp = DecState {
                    total: st.total + (nv - cv),
                    prev: nv - cv,
                    sub_low: cv,
                    was_sub: true,
                    sub_x: cv,
                    sub_y: nv,
                    rep_val: 0,
                    rep_count: 0,
                };
                assert(run(st, s1) == run(stp, s1.skip(2)));
                assert(s.skip(2) =~= s1.skip(2) + s2);
                lemma_run_append(stp, s1.skip(2), s2);
                assert(run(st, s) == run(stp, s1.skip(2) + s2));
            } else {
                let st1 = additive_step(st, cv)->Ok_0;
                assert(run(st, s1) == run(st1, s1.skip(1)));
                assert(s.skip(1) =~= s1.skip(1) + s2);
                lemma_run_append(st1, s1.skip(1), s2);
                assert(run(st, s) == run(st1, s1.skip(1) + s2));
            }
        }
    }
}

/// A value in [0, 3999] splits into its four decimal digits.
proof fn lemma_decimal_digits(n: int)
    requires
        0 <= n <= 3999,
    ensures
        0 <= n / 1000 <= 3,
        0 <= (n / 100) % 10 <= 9,
        0 <= (n / 10) % 10 <= 9,
        0 <= n % 10 <= 9,
        n == 1000 * (n / 1000) + 100 * ((n / 100) % 10) + 10 * ((n / 10) % 10) + n % 10,
{
    vstd::arithmetic::div_mod::lemma_fundamental_div_mod(n, 10);
    vstd::arithmetic::div_mod::lemma_fundamental_div_mod(n / 10, 10);
    vstd::arithmetic::div_mod::lemma_fundamental_div_mod(n / 100, 10);
    vstd::arithmetic::div_mod::lemma_div_denominator(n, 10, 10);
    vstd::arithmetic::div_mod::lemma_div_denominator(n, 100, 10);
}

/// Round trip: decoding the canonical numeral of any value in [1, 3999]
/// gives that value back.
pub proof fn lemma_round_trip(n: int)
    requires
        1 <= n <= 3999,
    ensures
        spec_to_arabic(spec_to_roman(n)) == Ok::<int, ErrorKind>(n),
{
    lemma_decimal_digits(n);
    let t = n / 1000;
    let h = (n / 100) % 10;
    let x = (n / 10) % 10;
    let u = n % 10;
    lemma_decompose(t, h, x, u);
    let ts = digit_seq(t, 'M', 'M', 'M');
    let hs = digit_seq(h, 'C', 'D', 'M');
    let xs = digit_seq(x, 'X', 'L', 'C');
    let us = digit_seq(u, 'I', 'V', 'X');
    lemma_digit_seq_bounds(t, 'M', 'M', 'M', 1000);
    lemma_digit_seq_bounds(h, 'C', 'D', 'M', 100);
    lemma_digit_seq_bounds(x, 'X', 'L', 'C', 10);
    lemma_digit_seq_bounds(u, 'I', 'V', 'X', 1);
    let st0 = init_state();
    lemma_run_digit(st0, t, 'M', 'M', 'M', 1000);
    let st1 = digit_exit(st0, t, 1000);
    lemma_run_digit(st1, h, 'C', 'D', 'M', 100);
    let st2 = digit_exit(st1, h, 100);
    lemma_run_digit(st2, x, 'X', 'L', 'C', 10);
    let st3 = digit_exit(st2, x, 10);
    lemma_run_digit(st3, u, 'I', 'V', 'X', 1);
    let st4 = digit_exit(st3, u, 1);
    // Reassociate the four pieces for seam-by-seam splitting.
    lemma_concat_associative(ts, hs, xs);
    lemma_concat_associative(ts, hs + xs, us);
    lemma_concat_associative(hs, xs, us);
    assert(spec_to_roman(n) == ts + (hs + (xs + us)));
    // The seam conditions: the first symbol after each piece is a Roman
    // symbol of a lower place.
    if x == 0 {
        assert(xs + us =~= us);
    }
    if h == 0 {
        assert(hs + (xs + us) =~= xs + us);
    }
    assert((xs + us).len() > 0 ==> is_roman_char((xs + us)[0]) && char_value((xs + us)[0]) <= 50);
    assert((hs + (xs + us)).len() > 0 ==> is_roman_char((hs + (xs + us))[0]) && char_value(
        (hs + (xs + us))[0],
    ) <= 500);
    lemma_run_append(st0, ts, hs + (xs + us));
    lemma_run_append(st1, hs, xs + us);
    lemma_run_append(st2, xs, us);
    assert(run(st0, spec_to_roman(n)) == Ok::<DecState, ErrorKind>(st4));
    assert(st4.total == n);
    assert(spec_to_roman(n).len() > 0);
}

/// The repetition limits as a predicate on strings: V, L and D never stand
/// twice in a row, and no symbol stands four times in a row.
pub open spec fn no_excess_runs(s: Seq<char>) -> bool {
    &&& (forall|i: int|
        0 <= i && i + 1 < s.len() && ((#[trigger] s[i]) == 'V' || s[i] == 'L' || s[i] == 'D')
            ==> s[i + 1] != s[i])
    &&& (forall|i: int|
        0 <= i && i + 3 < s.len() ==> !((#[trigger] s[i]) == s[i + 1] && s[i + 1] == s[i + 2] && s[
            i + 2
        ] == s[i + 3]))
}

/// Two pieces that both obey the repetition limits still obey them joined,
/// provided the symbols at the seam differ: a run of equal symbols cannot
/// cross the seam.
proof fn lemma_concat_runs(a: Seq<char>, b: Seq<char>)
    requires
        no_excess_runs(a),
        no_excess_runs(b),
        a.len() > 0 && b.len() > 0 ==> a.last() != b[0],
    ensures
        no_excess_runs(a + b),
{
    let s = a + b;
    assert forall|i: int|
        0 <= i && i + 1 < s.len() && ((#[trigger] s[i]) == 'V' || s[i] == 'L' || s[i] == 'D') implies s[
        i + 1
    ] != s[i] by {
        if i + 1 < a.len() {
            assert(s[i] == a[i] && s[i + 1] == a[i + 1]);
        } else if i >= a.len() {
            assert(s[i] == b[i - a.len()] && s[i + 1] == b[i + 1 - a.len()]);
        } else {
            assert(s[i] == a.last() && s[i + 1] == b[0]);
        }
    }
    assert forall|i: int| 0 <= i && i + 3 < s.len() implies !((#[trigger] s[i]) == s[i + 1] && s[i
        + 1] == s[i + 2] && s[i + 2] == s[i + 3]) by {
        if i + 3 < a.len() {
            assert(s[i] == a[i] && s[i + 1] == a[i + 1] && s[i + 2] == a[i + 2] && s[i + 3] == a[i
                + 3]);
        } else if i >= a.len() {
            assert(s[i] == b[i - a.len()] && s[i + 1] == b[i + 1 - a.len()] && s[i + 2] == b[i + 2
                - a.len()] && s[i + 3] == b[i + 3 - a.len()]);
        } else if s[i] == s[i + 1] && s[i + 1] == s[i + 2] && s[i + 2] == s[i + 3] {
            let j = a.len() - 1;
            assert(i <= j <= i + 2);
            assert(s[j] == s[j + 1]);
            assert(s[j] == a.last() && s[j + 1] == b[0]);
        }
    }
}

/// One digit's piece obeys the repetition limits: its "one" symbol appears
/// at most three times in a row and its "five" symbol at most once.
proof fn lemma_digit_runs(d: int, o: char, f: char, t: char)
    requires
        0 <= d <= 9,
        o != 'V' && o != 'L' && o != 'D',
        o != f,
        o != t,
    ensures
        no_excess_runs(digit_seq(d, o, f, t)),
{
}

/// Canonical-form uniqueness of repetition: the encoding of any value up to
/// 3999 contains no symbol run that the decoder's repeat limits reject.
pub proof fn lemma_canonical_form(n: int)
    requires
        0 <= n <= 3999,
    ensures
        no_excess_runs(spec_to_roman(n)),
{
    lemma_decimal_digits(n);
    let t = n / 1000;
    let h = (n / 100) % 10;
    let x = (n / 10) % 10;
    let u = n % 10;
    lemma_decompose(t, h, x, u);
    let ts = digit_seq(t, 'M', 'M', 'M');
    let hs = digit_seq(h, 'C', 'D', 'M');
    let xs = digit_seq(x, 'X', 'L', 'C');
    let us = digit_seq(u, 'I', 'V', 'X');
    lemma_digit_seq_bounds(t, 'M', 'M', 'M', 1000);
    lemma_digit_seq_bounds(h, 'C', 'D', 'M', 100);
    lemma_digit_seq_bounds(x, 'X', 'L', 'C', 10);
    lemma_digit_seq_bounds(u, 'I', 'V', 'X', 1);
    lemma_digit_runs(t, 'M', 'C', 'D');
    lemma_digit_runs(h, 'C', 'D', 'M');
    lemma_digit_runs(x, 'X', 'L', 'C');
    lemma_digit_runs(u, 'I', 'V', 'X');
    if x == 0 {
        assert(xs + us =~= us);
    }
    if h == 0 {
        assert(hs + (xs + us) =~= xs + us);
    }
    lemma_concat_runs(xs, us);
    lemma_concat_runs(hs, xs + us);
    lemma_concat_runs(ts, hs + (xs + us));
    lemma_concat_associative(ts, hs, xs);
    lemma_concat_associative(ts, hs + xs, us);
    lemma_concat_associative(hs, xs, us);
    assert(spec_to_roman(n) == ts + (hs + (xs + us)));
}

/// Error detection is deterministic: for one input the decoder's contract
/// admits exactly one result, so repeated calls with identical input report
/// the same value or the same first violated rule.
pub proof fn lemma_decode_deterministic(s: Seq<char>, r1: Result<i32, ErrorKind>, r2: Result<
    i32,
    ErrorKind,
>)
    requires
        decodes_to(s, r1),
        decodes_to(s, r2),
    ensures
        r1 == r2,
{
}

} // verus!
