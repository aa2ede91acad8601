//! Conversion between Arabic integers and Roman numeral strings.
//!
//! The encoder maps an unsigned integer to its canonical Roman numeral; the
//! decoder parses a Roman numeral string, enforcing the positional and
//! repetition grammar, and reports the first violated rule as an `ErrorKind`.

pub mod decode;
pub mod digits;
pub mod encode;
pub mod error;
pub mod laws;
pub mod symbols;

pub use decode::to_arabic;
pub use encode::to_roman;
pub use error::ErrorKind;
pub use symbols::roman_char_to_value;
