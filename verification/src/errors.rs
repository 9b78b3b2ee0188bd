//! Error taxonomy of the core: decoding failures and protocol failures.
//! Transport and queue failures belong to the I/O layer around the core.

use vstd::prelude::*;

verus! {

/// A payload could not be decoded into the value it was supposed to carry.
#[derive(Clone, Copy, Debug, PartialEq, Eq, Structural)]
pub enum DecodeError {
    /// The input ended before a complete value was read.
    Truncated,
    /// A tag byte or tag character named no known variant.
    BadTag,
    /// A digit character was outside the expected range.
    BadDigit,
    /// The input held bytes beyond the encoded value.
    TrailingBytes,
    /// The body bytes were not valid UTF-8.
    InvalidUtf8,
}

/// A message was addressed or shaped unexpectedly for the relay's bookkeeping.
#[derive(Clone, Copy, Debug, PartialEq, Eq, Structural)]
pub enum ProtocolError {
    /// A close was requested for an identity that the registry does not hold.
    NotInRegistry,
    /// A register minted an identity that the registry already holds.
    AlreadyRegistered,
}

impl DecodeError {
    /// A short description, for logs kept by the I/O layer.
    pub fn describe(&self) -> (r: &'static str)
    {
        match self {
            DecodeError::Truncated => "input ended before a complete value",
            DecodeError::BadTag => "unknown tag",
            DecodeError::BadDigit => "digit out of range",
            DecodeError::TrailingBytes => "bytes left over after the value",
            DecodeError::InvalidUtf8 => "body bytes are not valid UTF-8",
        }
    }
}

impl ProtocolError {
    /// A short description, for logs kept by the I/O layer.
    pub fn describe(&self) -> (r: &'static str)
    {
        match self {
            ProtocolError::NotInRegistry => "identity not found in the registry",
            ProtocolError::AlreadyRegistered => "identity already in the registry",
        }
    }
}

} // verus!
