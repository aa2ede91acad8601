//! Encoder: Arabic integer to canonical Roman numeral.

use vstd::prelude::*;

verus! {

/// Value of the `k`-th entry of the greedy lookup table, largest first, with
/// the six subtractive compounds interleaved in their canonical position.
pub open spec fn table_value(k: int) -> int {
    if k == 0 {
        1000
    } else if k == 1 {
        900
    } else if k == 2 {
        500
    } else if k == 3 {
        400
    } else if k == 4 {
        100
    } else if k == 5 {
        90
    } else if k == 6 {
        50
    } else if k == 7 {
        40
    } else if k == 8 {
        10
    } else if k == 9 {
        9
    } else if k == 10 {
        5
    } else if k == 11 {
        4
    } else {
        1
    }
}

/// Symbol of the `k`-th entry of the greedy lookup table.
pub open spec fn table_seq(k: int) -> Seq<char> {
    if k == 0 {
        seq!['M']
    } else if k == 1 {
        seq!['C', 'M']
    } else if k == 2 {
        seq!['D']
    } else if k == 3 {
        seq!['C', 'D']
    } else if k == 4 {
        seq!['C']
    } else if k == 5 {
        seq!['X', 'C']
    } else if k == 6 {
        seq!['L']
    } else if k == 7 {
        seq!['X', 'L']
    } else if k == 8 {
        seq!['X']
    } else if k == 9 {
        seq!['I', 'X']
    } else if k == 10 {
        seq!['V']
    } else if k == 11 {
        seq!['I', 'V']
    } else {
        seq!['I']
    }
}

/// The canonical Roman numeral of `n`: repeatedly take the largest table
/// entry whose value still fits. Zero and negative values give the empty
/// sequence.
pub open spec fn spec_to_roman(n: int) -> Seq<char>
    decreases n,
{
    if n >= 1000 {
        seq!['M'] + spec_to_roman(n - 1000)
    } else if n >= 900 {
        seq!['C', 'M'] + spec_to_roman(n - 900)
    } else if n >= 500 {
        seq!['D'] + spec_to_roman(n - 500)
    } else if n >= 400 {
        seq!['C', 'D'] + spec_to_roman(n - 400)
    } else if n >= 100 {
        seq!['C'] + spec_to_roman(n - 100)
    } else if n >= 90 {
        seq!['X', 'C'] + spec_to_roman(n - 90)
    } else if n >= 50 {
        seq!['L'] + spec_to_roman(n - 50)
    } else if n >= 40 {
        seq!['X', 'L'] + spec_to_roman(n - 40)
    } else if n >= 10 {
        seq!['X'] + spec_to_roman(n - 10)
    } else if n >= 9 {
        seq!['I', 'X'] + spec_to_roman(n - 9)
    } else if n >= 5 {
        seq!['V'] + spec_to_roman(n - 5)
    } else if n >= 4 {
        seq!['I', 'V'] + spec_to_roman(n - 4)
    } else if n >= 1 {
        seq!['I'] + spec_to_roman(n - 1)
    } else {
        Seq::<char>::empty()
    }
}

/// One greedy step: when `n` lies below every earlier table entry and at or
/// above entry `k`, the canonical numeral starts with entry `k`'s symbol.
pub proof fn lemma_greedy_step(n: int, k: int)
    requires
        0 <= k < 13,
        table_value(k) <= n,
        k == 0 || n < table_value(k - 1),
    ensures
        spec_to_roman(n) == table_seq(k) + spec_to_roman(n - table_value(k)),
{
}

/// The `k`-th table entry as executable data: its symbol and its value.
fn table_entry(k: usize) -> (r: (&'static str, u32))
    requires
        k < 13,
    ensures
        r.0@ == table_seq(k as int),
        r.1 == table_value(k as int),
{
    let r: (&'static str, u32) = match k {
        0 => ("M", 1000),
        1 => ("CM", 900),
        2 => ("D", 500),
        3 => ("CD", 400),
        4 => ("C", 100),
        5 => ("XC", 90),
        6 => ("L", 50),
        7 => ("XL", 40),
        8 => ("X", 10),
        9 => ("IX", 9),
        10 => ("V", 5),
        11 => ("IV", 4),
        _ => ("I", 1),
    };
    proof {
        reveal_strlit("M");
        reveal_strlit("CM");
        reveal_strlit("D");
        reveal_strlit("CD");
        reveal_strlit("C");
        reveal_strlit("XC");
        reveal_strlit("L");
        reveal_strlit("XL");
        reveal_strlit("X");
        reveal_strlit("IX");
        reveal_strlit("V");
        reveal_strlit("IV");
        reveal_strlit("I");
        assert(r.0@ =~= table_seq(k as int));
    }
    r
}

/// Converts an Arabic number to its canonical Roman numeral. Zero gives the
/// empty string; values above 3999 give a well-formed run of leading `M`s.
pub fn to_roman(input: u32) -> (r: String)
    ensures
        r@ == spec_to_roman(input as int),
{
    let mut roman_phrase = String::new();
    let mut number = input;
    let mut k: usize = 0;
    while k < 13
        invariant
            k <= 13,
            roman_phrase@ + spec_to_roman(number as int) == spec_to_roman(input as int),
            k > 0 ==> number < table_value(k as int - 1),
        decreases 13 - k,
    {
        let (symbol, value) = table_entry(k);
        while number >= value
            invariant
                k < 13,
                roman_phrase@ + spec_to_roman(number as int) == spec_to_roman(input as int),
                k > 0 ==> number < table_value(k as int - 1),
                symbol@ == table_seq(k as int),
                value == table_value(k as int),
            decreases number,
        {
            proof {
                lemma_greedy_step(number as int, k as int);
                assert((roman_phrase@ + table_seq(k as int)) + spec_to_roman(
                    number as int - table_value(k as int),
                ) =~= roman_phrase@ + spec_to_roman(number as int));
            }
            number -= value;
            roman_phrase.append(symbol);
        }
        k += 1;
    }
    proof {
        assert(spec_to_roman(number as int) =~= Seq::<char>::empty());
        assert(roman_phrase@ + Seq::<char>::empty() =~= roman_phrase@);
    }
    roman_phrase
}

} // verus!
