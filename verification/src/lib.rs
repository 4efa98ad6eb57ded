//! Conversion between an integer and the sequence of its decimal digits.
//!
//! `ToDigits::to_digits` turns an integer of any common width and signedness
//! into a `Vec<i8>` of its base-ten digits, most significant first, each digit
//! carrying the sign of the number. `FromDigits::from_digits` and
//! `FromIterRadix::from_iter_radix` accumulate such a sequence back into a
//! number. The module [`digits`] holds the mathematical model both directions
//! are specified against, together with the laws that relate them.

pub mod codec;
pub mod digits;

pub use codec::FromDigits;
pub use codec::FromIterRadix;
pub use codec::ToDigits;
