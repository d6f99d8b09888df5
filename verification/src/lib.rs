//! A trusted-timestamping core: a time-quantized key-rotation store that
//! signs caller-supplied messages with the key current for the signing
//! instant, keeps a sorted history of retired public keys, and answers
//! "which key was authoritative at time T?" by predecessor lookup.

pub mod api_types;
pub mod crypto;
pub mod datetime_utils;
pub mod errors;
pub mod key_types;
pub mod pub_key_storage;
