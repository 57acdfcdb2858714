use vstd::prelude::*;

verus! {

/// The ways a conversion of this library can fail.
#[derive(Debug, Clone, Copy, PartialEq, Eq, Structural)]
pub enum Error {
    /// A hex string holds a character outside `[0-9a-fA-F]`, or is empty where
    /// a number was expected.
    InvalidDigit,
    /// A byte value does not map to a Unicode scalar value.
    Unrepresentable,
    /// Decoded bytes are not valid UTF-8.
    Utf8Invalid,
    /// A requested byte width lies outside `1..=8`.
    InvalidWidth,
    /// A number does not fit the integer type it is read into.
    OutOfRange,
}

} // verus!
