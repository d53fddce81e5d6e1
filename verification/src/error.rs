//! Error values for the two directions of the codec.

use vstd::prelude::*;

verus! {

/// An error raised while encoding.
#[derive(Debug, PartialEq)]
pub enum Error {
    /// The value or shape cannot be represented in the current context,
    /// for example an anonymous collection at the document root.
    UnsupportedType,
    /// The byte sink failed to accept a write.
    Io,
    /// A message surfaced by the layer driving the encoder.
    Custom(String),
}

impl Error {
    /// Wraps a caller-supplied message, as the driving layer reports failures
    /// of its own through the encoder's error type.
    pub fn custom(msg: String) -> (r: Error)
        ensures
            r == Error::Custom(msg),
    {
        Error::Custom(msg)
    }

    /// A human-readable description of the error.
    pub fn message(&self) -> (r: &str)
        ensures
            match self {
                Error::UnsupportedType => r@ == "unsupported Rust type"@,
                Error::Io => r@ == "error during I/O operations"@,
                Error::Custom(m) => r@ == m@,
            },
    {
        match self {
            Error::UnsupportedType => "unsupported Rust type",
            Error::Io => "error during I/O operations",
            Error::Custom(m) => m.as_str(),
        }
    }
}

/// An error raised while decoding.
#[derive(Debug, PartialEq, Eq, Structural, Clone, Copy)]
pub enum DecodeError {
    /// The input ended before the record's terminating `;`.
    UnterminatedRecord,
    /// A trailing `\` had no byte after it.
    InvalidEscape,
    /// A byte that is not a valid UTF-8 lead byte stood where one was needed.
    InvalidUtf8,
    /// A numeric token was empty or held a byte that is not part of a number.
    InvalidNumber,
    /// A numeric token's magnitude exceeds the requested width.
    Overflow,
    /// A record's header or tag does not match what the caller expects here.
    UnknownTag,
    /// A tuple carried fewer or more parameters than were declared.
    ArityMismatch,
    /// An entry's indentation does not equal the expected depth exactly.
    IndentationMismatch,
}

} // verus!
