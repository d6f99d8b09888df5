//! The plain request and response shapes of the service interface. The
//! surrounding transport layer marshals these; the core only fills them.

use vstd::prelude::*;

use crate::key_types::SignResponse;

verus! {

/// A request to sign a message.
pub struct SignRequest {
    /// The UTF-8 message to be bound to the current instant.
    pub message: String,
}

/// A request to verify a previously issued proof: the proof itself.
pub type VerifyRequest = SignResponse;

/// One authoritative key: its rendered public half and the rendered instant
/// from which it was authoritative.
pub struct KeyResponse {
    /// Base64 of the raw public key bytes.
    pub public_key: String,
    /// The canonical rendering of the key's generation instant.
    pub key_time: String,
}

/// The keys answering a range request, in time order.
pub struct KeyRangeResponse {
    /// At most `MAX_RANGE_RESULTS` entries.
    pub keys: Vec<KeyResponse>,
}

} // verus!
