use vstd::prelude::*;

verus! {

/// Why a segment could not be read as an id.
#[derive(Clone, Copy, Debug, PartialEq, Eq, Structural)]
pub enum IdError {
    /// The segment is empty.
    Empty,
    /// The segment holds something other than decimal digits (after an
    /// optional leading `+`).
    InvalidDigit,
    /// The value does not fit in a `u64`.
    TooLarge,
}

/// Why a structured key could not be parsed.
#[derive(Debug, PartialEq, Eq)]
#[allow(inconsistent_fields)]
pub enum KeyError {
    /// The `i`-th segment was `got` where `expect` was required.
    InvalidSegment { i: usize, expect: String, got: String },
    /// The key `got` does not have the `expect` segments that were asked for.
    WrongNumberOfSegments { expect: usize, got: String },
    /// The segment `s` is not a valid id.
    InvalidId { s: String, reason: IdError },
    /// The segment `s` holds a `%` that is not followed by two hex digits.
    InvalidEscape { s: String },
    /// The segment `s` unescapes to bytes that are not UTF-8.
    InvalidUtf8 { s: String },
}

} // verus!
