//! The typed failures the core can return. Every one is recoverable at the
//! request boundary: the core itself never panics on caller-supplied input.

use vstd::prelude::*;

verus! {

/// Everything that can go wrong inside the key store or the protocol around it.
#[derive(Clone, Copy, Debug, PartialEq, Eq, Structural)]
pub enum Error {
    /// A timestamp string could not be parsed, or parsed to an instant the
    /// store cannot represent.
    Parse,
    /// A key was requested for an instant that has not been reached yet.
    FutureTime,
    /// A key was requested for an instant before the earliest recorded key.
    BeforeHistory,
    /// A range request whose end precedes its start.
    MalformedRange,
    /// The key a proof claims was never authoritative at the claimed time.
    KeyMismatch,
    /// Cryptographic verification of a signature failed.
    SignatureMismatch,
    /// A base64 field of a request could not be decoded.
    Decode,
    /// The secure random source failed while generating a key or nonce.
    Random,
}

impl Error {
    /// A short human-readable description, for the surrounding service to log
    /// or map to a response.
    pub fn describe(&self) -> &'static str {
        match self {
            Error::Parse => "failed to parse time",
            Error::FutureTime => "cannot provide future keys",
            Error::BeforeHistory => "time is before recorded history",
            Error::MalformedRange => "malformed request",
            Error::KeyMismatch => "key mismatch",
            Error::SignatureMismatch => "signature mismatch",
            Error::Decode => "failed to decode",
            Error::Random => "secure random source failed",
        }
    }
}

} // verus!
