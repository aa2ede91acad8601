//! The closed set of rules a Roman numeral string can violate.

use vstd::prelude::*;

verus! {

/// One variant per grammar rule the decoder enforces; the decoder reports the
/// first (leftmost) rule violated during its single left-to-right pass.
#[derive(Clone, Copy, Debug, PartialEq, Eq, Structural)]
pub enum ErrorKind {
    /// The input string was empty.
    EmptyInput,
    /// A character outside `{I, V, X, L, C, D, M}` was found.
    UnknownSymbol,
    /// A low symbol preceded a higher one without forming one of the six
    /// legal subtractive pairs (IV, IX, XL, XC, CD, CM).
    InvalidSubtractivePair,
    /// A group's value exceeded the value of the group before it.
    OrderViolation,
    /// A single symbol's value fell strictly between the two component values
    /// of the subtractive pair immediately before it.
    AdjacentSubtractiveConflict,
    /// The symbol just subtracted inside a pair reappeared as a bare additive
    /// symbol immediately after that pair.
    RepeatedAfterSubtraction,
    /// V, L or D repeated, or I, X, C or M appeared more than three times in
    /// a row.
    TooManyRepeats,
}

} // verus!
