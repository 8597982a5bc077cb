//! The ways in which decoding a message can fail.

use vstd::prelude::*;

verus! {

/// Why a wire message was turned down. Building and encoding a message never fail.
#[derive(Clone, Copy, Debug, PartialEq, Eq, Structural)]
pub enum Error {
    /// The bytes of an identifier name no identifier, or an identifier could not be
    /// made from a block's hash function, codec and data.
    InvalidIdentifier,
    /// The prefix bytes of a payload block cannot be read.
    InvalidPrefix,
    /// A want type or a presence kind lies outside its enumeration.
    InvalidEnumValue,
    /// The framing of the wire message itself cannot be read.
    MalformedWire,
}

impl Error {
    /// A short description of the error, one for each kind.
    pub fn message(&self) -> (s: &'static str)
        ensures
            s@ == match self {
                Error::InvalidIdentifier => "invalid identifier"@,
                Error::InvalidPrefix => "invalid prefix"@,
                Error::InvalidEnumValue => "invalid enum value"@,
                Error::MalformedWire => "malformed wire message"@,
            },
    {
        match self {
            Error::InvalidIdentifier => "invalid identifier",
            Error::InvalidPrefix => "invalid prefix",
            Error::InvalidEnumValue => "invalid enum value",
            Error::MalformedWire => "malformed wire message",
        }
    }
}

} // verus!
