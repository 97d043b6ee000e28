//! The ways in which encoding and decoding fail.

use vstd::prelude::*;
use crate::schema::FieldType;

verus! {

/// Why a message has no wire text.
#[derive(Clone, Copy, Debug, PartialEq, Eq, Structural)]
#[allow(inconsistent_fields)]
pub enum EncodeError {
    /// The message does not hold as many fields as its kind has.
    ArityMismatch { expected: usize, actual: usize },
    /// The field at `position` is not of the type that the schema names.
    FieldTypeMismatch { position: usize, expected: FieldType, actual: FieldType },
    /// The device has no talker code.
    UnknownTalker,
}

/// Why a text is no message.
#[derive(Clone, Copy, Debug, PartialEq, Eq, Structural)]
#[allow(inconsistent_fields)]
pub enum DecodeError {
    /// The line does not start with `$`, holds no `*`, or does not end
    /// with carriage return and line feed.
    MalformedFrame,
    /// What stands between the last `*` and the line end is not exactly
    /// two hexadecimal digits.
    BadChecksumFormat,
    /// The payload's checksum, `expected`, is not the claimed one,
    /// `actual`.
    ChecksumMismatch { expected: u8, actual: u8 },
    /// The payload does not start with a known talker code.
    UnknownTalker,
    /// The first token does not end in a known sentence name.
    UnknownSentenceKind,
    /// The sentence does not hold as many fields as its kind has.
    ArityMismatch { expected: usize, actual: usize },
    /// The field at `position` is no text of the type that the schema
    /// names.
    FieldTypeMismatch { position: usize },
}

} // verus!
