//! Trusted boundary to the cryptographic primitives.
//!
//! Everything the library needs from ring and base64 passes through the
//! wrappers here. Ed25519 signing and verification are deterministic
//! functions of their inputs (RFC 8032), so their results are given
//! uninterpreted names that the rest of the library reasons with; nothing
//! is claimed about the bits themselves.

use vstd::prelude::*;

use crate::errors::Error;
use ring::rand::SecureRandom;
use ring::signature::KeyPair;
use base64::Engine;

verus! {

/// Whether `Ed25519KeyPair::from_pkcs8` accepts this PKCS#8 document.
/// Acceptance depends on the bytes alone.
pub uninterp spec fn keypair_accepted(pkcs8: Seq<u8>) -> bool;

/// The raw public key bytes of the key pair parsed from an accepted PKCS#8
/// document; a function of the document alone.
pub uninterp spec fn pub_key_of(pkcs8: Seq<u8>) -> Seq<u8>;

/// The detached Ed25519 signature the parsed key pair produces over the
/// UTF-8 bytes of a message. Ed25519 signing is deterministic: the signature
/// depends on the document and the message alone.
pub uninterp spec fn sig_of(pkcs8: Seq<u8>, msg: Seq<char>) -> Seq<u8>;

/// The verdict of Ed25519 signature verification for a public key, the UTF-8
/// bytes of a message, and an alleged signature; deterministic in all three.
pub uninterp spec fn sig_valid(pub_key: Seq<u8>, msg: Seq<char>, sig: Seq<u8>) -> bool;

/// The standard-alphabet, padded base64 rendering of a byte string.
pub uninterp spec fn b64_of(bytes: Seq<u8>) -> Seq<char>;

/// What base64 decoding returns for a string: the bytes, or nothing for
/// input that is not valid base64.
pub uninterp spec fn b64_decode_of(s: Seq<char>) -> Option<Seq<u8>>;

/// Relies on ring's `SystemRandom` and `Ed25519KeyPair::generate_pkcs8`: a
/// fresh key pair serialized as a PKCS#8 v2 document, which
/// `Ed25519KeyPair::from_pkcs8` is documented to parse back. The bytes are
/// random; nothing else is promised of them.
#[verifier::external_body]
pub(crate) fn gen_pkcs8() -> (r: Result<Vec<u8>, Error>)
    ensures
        r is Ok ==> keypair_accepted(r.unwrap()@),
        r is Err ==> r.unwrap_err() == Error::Random,
{
    let rng = ring::rand::SystemRandom::new();
    match ring::signature::Ed25519KeyPair::generate_pkcs8(&rng) {
        Ok(doc) => Ok(doc.as_ref().to_vec()),
        Err(_) => Err(Error::Random),
    }
}

/// Relies on ring's `Ed25519KeyPair::from_pkcs8` (which succeeds exactly on
/// the documents it accepts) and `KeyPair::public_key`: the public half of
/// the parsed pair, 32 bytes for Ed25519.
#[verifier::external_body]
pub(crate) fn pub_key_from_pkcs8(pkcs8: &[u8]) -> (r: Result<Vec<u8>, Error>)
    ensures
        r is Ok <==> keypair_accepted(pkcs8@),
        r is Ok ==> r.unwrap()@ == pub_key_of(pkcs8@) && r.unwrap()@.len() == 32,
        r is Err ==> r.unwrap_err() == Error::Decode,
{
    match ring::signature::Ed25519KeyPair::from_pkcs8(pkcs8) {
        Ok(kp) => Ok(kp.public_key().as_ref().to_vec()),
        Err(_) => Err(Error::Decode),
    }
}

/// Relies on ring's `Ed25519KeyPair::from_pkcs8` and `Ed25519KeyPair::sign`:
/// a 64-byte detached signature over the message bytes, deterministic in the
/// key and the message, and — the documented contract of the signature
/// scheme, shown by ring's own round trip — valid for the pair's public key
/// over the same message.
#[verifier::external_body]
pub(crate) fn sign_with_pkcs8(pkcs8: &[u8], msg: &str) -> (r: Result<Vec<u8>, Error>)
    ensures
        r is Ok <==> keypair_accepted(pkcs8@),
        r is Ok ==> {
            &&& r.unwrap()@ == sig_of(pkcs8@, msg@)
            &&& r.unwrap()@.len() == 64
            &&& sig_valid(pub_key_of(pkcs8@), msg@, sig_of(pkcs8@, msg@))
        },
        r is Err ==> r.unwrap_err() == Error::Decode,
{
    match ring::signature::Ed25519KeyPair::from_pkcs8(pkcs8) {
        Ok(kp) => Ok(kp.sign(msg.as_bytes()).as_ref().to_vec()),
        Err(_) => Err(Error::Decode),
    }
}

/// Relies on ring's `UnparsedPublicKey::verify` with the `ED25519`
/// algorithm: parses the public key and checks the signature over the
/// message bytes; deterministic in all three inputs.
#[verifier::external_body]
pub(crate) fn verify_signature(pub_key: &[u8], msg: &str, sig: &[u8]) -> (r: bool)
    ensures
        r == sig_valid(pub_key@, msg@, sig@),
{
    ring::signature::UnparsedPublicKey::new(&ring::signature::ED25519, pub_key)
        .verify(msg.as_bytes(), sig)
        .is_ok()
}

/// Relies on base64's `Engine::encode` with the standard engine: the padded
/// base64 rendering of the bytes — four characters for every started group
/// of three bytes — which `Engine::decode` of the same engine decodes back
/// to them. The length bound keeps the encoder's internal buffer-size
/// computation from overflowing.
#[verifier::external_body]
pub(crate) fn b64_encode(bytes: &[u8]) -> (r: String)
    requires
        bytes@.len() <= 0x1000_0000,
    ensures
        r@ == b64_of(bytes@),
        r@.len() == 4 * ((bytes@.len() + 2) / 3),
        b64_decode_of(r@) == Some(bytes@),
{
    base64::engine::general_purpose::STANDARD.encode(bytes)
}

/// Relies on base64's `Engine::decode` with the standard engine: the decoded
/// bytes, or an error exactly on input that is not valid base64.
#[verifier::external_body]
pub(crate) fn b64_decode(s: &str) -> (r: Result<Vec<u8>, Error>)
    ensures
        match r {
            Ok(v) => b64_decode_of(s@) == Some(v@),
            Err(e) => b64_decode_of(s@) is None && e == Error::Decode,
        },
{
    match base64::engine::general_purpose::STANDARD.decode(s) {
        Ok(v) => Ok(v),
        Err(_) => Err(Error::Decode),
    }
}

/// Relies on ring's `SystemRandom::fill`: on success the whole 32-byte
/// buffer is filled with fresh cryptographically secure random data; nothing
/// can be promised about the bytes themselves.
#[verifier::external_body]
pub(crate) fn random_32() -> (r: Result<Vec<u8>, Error>)
    ensures
        r is Ok ==> r.unwrap()@.len() == 32,
        r is Err ==> r.unwrap_err() == Error::Random,
{
    let rng = ring::rand::SystemRandom::new();
    let mut buf = [0u8; 32];
    match rng.fill(&mut buf) {
        Ok(()) => Ok(buf.to_vec()),
        Err(_) => Err(Error::Random),
    }
}

} // verus!
