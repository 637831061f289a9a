use vstd::prelude::*;

verus! {

/// Every way an operation of this library can fail.
#[derive(Debug, Clone, Copy, PartialEq, Eq, Structural)]
pub enum H2Error {
    /// An array was built with a count of zero.
    ZeroLengthArray,
    /// A struct was built with no fields.
    EmptyStruct,
    /// An enum was built with no variants.
    EmptyEnum,
    /// A fixed-count string was built with a count of zero.
    ZeroLengthString,
    /// A string was built over a type that does not decode to a character.
    NotACharacterType,
    /// A length-prefixed string was built over a length type that does not
    /// decode to an unsigned integer.
    NotALengthType,
    /// A span ends before it starts.
    ReversedRange,
    /// A span starts off a strict alignment boundary.
    Misaligned,
    /// The operation needs bytes, but the offset is abstract.
    WrongMode,
    /// The bytes needed lie past the end of the buffer.
    OutOfBounds,
    /// The bytes do not form a character of the declared encoding.
    InvalidEncoding,
    /// The buffer ended before a null terminator was found.
    MissingTerminator,
    /// A position or size does not fit in 64 bits.
    Overflow,
}

} // verus!
