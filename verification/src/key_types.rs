//! Key material and the signing protocol.
//!
//! A `SingleKeySet` is one ephemeral Ed25519 key pair plus the instant it was
//! generated; a `TimedPublicKey` is the immutable record a retired key leaves
//! behind. `SignResponse` is the proof handed to a client: it binds a
//! timestamp, the message, a fresh nonce and the detached signature over the
//! canonical payload built from the three.

use vstd::prelude::*;
use vstd::string::StringExecFns;

use crate::crypto::{
    b64_decode_of, b64_encode, b64_of, gen_pkcs8, keypair_accepted, pub_key_from_pkcs8,
    pub_key_of, random_32, sig_of, sig_valid, sign_with_pkcs8,
};
use crate::datetime_utils::{time_wf, ProveWhenTime, TimeModel};
use crate::errors::Error;

verus! {

/// The fixed prefix of every nonce.
pub open spec fn nonce_prefix() -> Seq<char> {
    "provewhen.io:"@
}

/// The canonical signable payload: the rendered timestamp, the message and
/// the nonce, joined by semicolons. Exactly this character string, as UTF-8
/// bytes, is what gets signed and verified.
pub open spec fn signable_of(ts: TimeModel, msg: Seq<char>, nonce: Seq<char>) -> Seq<char> {
    ts.rendered + seq![';'] + msg + seq![';'] + nonce
}

/// Builds the canonical signable payload for a timestamp, message and nonce.
pub fn raw_msg_to_signable(timestamp: &ProveWhenTime, message: &str, nonce: &str) -> (r: String)
    ensures
        r@ == signable_of(timestamp@, message@, nonce@),
{
    proof {
        reveal_strlit(";");
    }
    let mut s = String::new();
    s.append(timestamp.as_str());
    s.append(";");
    s.append(message);
    s.append(";");
    s.append(nonce);
    proof {
        assert(s@ =~= signable_of(timestamp@, message@, nonce@));
    }
    s
}

/// A fresh nonce: the fixed prefix followed by base64 of 256 bits of
/// cryptographically secure random data.
pub fn nonce() -> (r: Result<String, Error>)
    ensures
        match r {
            Ok(s) => exists|data: Seq<u8>|
                data.len() == 32 && s@ == nonce_prefix() + #[trigger] b64_of(data),
            Err(e) => e == Error::Random,
        },
{
    let data = match random_32() {
        Ok(d) => d,
        Err(e) => {
            return Err(e);
        },
    };
    let encoded = b64_encode(data.as_slice());
    let mut s = "provewhen.io:".to_owned();
    s.append(encoded.as_str());
    proof {
        assert(s@ == nonce_prefix() + b64_of(data@));
    }
    Ok(s)
}

/// A proof that a message existed at a time: the claimed instant, the
/// generation instant of the signing key, the key's public half, the
/// message, the detached signature over the canonical payload, and the
/// per-signature nonce.
pub struct SignResponse {
    /// The instant the signer claims for the message, by its own clock.
    pub timestamp: ProveWhenTime,
    /// The generation instant of the key that signed.
    pub key_time: ProveWhenTime,
    /// Base64 of the raw public key bytes.
    pub public_key: String,
    /// The message, as submitted, in UTF-8.
    pub message: String,
    /// Base64 of the detached signature bytes.
    pub signature: String,
    /// The fixed prefix plus base64 of 32 random bytes.
    pub nonce: String,
}

impl Clone for SignResponse {
    fn clone(&self) -> (r: Self)
        ensures
            r == *self,
    {
        SignResponse {
            timestamp: self.timestamp.clone(),
            key_time: self.key_time.clone(),
            public_key: self.public_key.clone(),
            message: self.message.clone(),
            signature: self.signature.clone(),
            nonce: self.nonce.clone(),
        }
    }
}

/// All instants carried by a proof are well-formed.
pub open spec fn proof_wf(p: SignResponse) -> bool {
    time_wf(p.timestamp@) && time_wf(p.key_time@)
}

/// The mathematical model of a signing key set.
pub ghost struct KeyModel {
    /// The instant the pair was generated.
    pub time: TimeModel,
    /// Base64 of the public half.
    pub pk_b64: Seq<char>,
    /// The PKCS#8 document holding the pair.
    pub pkcs8: Seq<u8>,
}

/// A key set whose PKCS#8 document parses and whose rendered public half is
/// the base64 of the parsed pair's public key.
pub open spec fn key_wf(k: KeyModel) -> bool {
    &&& time_wf(k.time)
    &&& keypair_accepted(k.pkcs8)
    &&& k.pk_b64 == b64_of(pub_key_of(k.pkcs8))
    &&& b64_decode_of(k.pk_b64) == Some(pub_key_of(k.pkcs8))
}

/// One ephemeral Ed25519 key pair plus its generation instant. The private
/// material never leaves the PKCS#8 document held here; no serialized or
/// rendered form of the key set carries it.
pub struct SingleKeySet {
    pub(crate) time_generated: ProveWhenTime,
    pub(crate) pub_key_base64: String,
    pkcs8: Vec<u8>,
}

impl View for SingleKeySet {
    type V = KeyModel;

    closed spec fn view(&self) -> KeyModel {
        KeyModel {
            time: self.time_generated@,
            pk_b64: self.pub_key_base64@,
            pkcs8: self.pkcs8@,
        }
    }
}

impl Clone for SingleKeySet {
    fn clone(&self) -> (r: Self)
        ensures
            r@ == self@,
    {
        let pkcs8 = self.pkcs8.clone();
        proof {
            assert(pkcs8@ =~= self.pkcs8@);
        }
        SingleKeySet {
            time_generated: self.time_generated.clone(),
            pub_key_base64: self.pub_key_base64.clone(),
            pkcs8,
        }
    }
}

impl SingleKeySet {
    /// Generates a fresh key pair stamped with the current instant.
    pub fn new() -> (r: Result<Self, Error>)
        ensures
            match r {
                Ok(k) => key_wf(k@),
                Err(e) => e == Error::Random,
            },
    {
        Self::from_time(ProveWhenTime::now())
    }

    /// Generates a fresh key pair stamped with the given instant.
    pub fn from_time(time: ProveWhenTime) -> (r: Result<Self, Error>)
        requires
            time_wf(time@),
        ensures
            match r {
                Ok(k) => key_wf(k@) && k@.time == time@,
                Err(e) => e == Error::Random,
            },
    {
        let pkcs8 = match gen_pkcs8() {
            Ok(d) => d,
            Err(e) => {
                return Err(e);
            },
        };
        let pub_key = match pub_key_from_pkcs8(pkcs8.as_slice()) {
            Ok(p) => p,
            Err(_) => {
                // The document was just generated, so it is always accepted.
                return Err(Error::Random);
            },
        };
        let pub_key_base64 = b64_encode(pub_key.as_slice());
        Ok(SingleKeySet { time_generated: time, pub_key_base64, pkcs8 })
    }

    /// Rebuilds a key set from its persisted parts: the generation instant
    /// and the stored PKCS#8 document. Fails exactly when the document is
    /// not one the key parser accepts; the public half is re-derived from
    /// the document rather than trusted from storage.
    pub fn from_stored(time: ProveWhenTime, pkcs8: Vec<u8>) -> (r: Result<Self, Error>)
        requires
            time_wf(time@),
        ensures
            match r {
                Ok(k) => key_wf(k@) && k@.time == time@ && k@.pkcs8 == pkcs8@,
                Err(e) => e == Error::Decode && !keypair_accepted(pkcs8@),
            },
    {
        let pub_key = match pub_key_from_pkcs8(pkcs8.as_slice()) {
            Ok(p) => p,
            Err(e) => {
                return Err(e);
            },
        };
        let pub_key_base64 = b64_encode(pub_key.as_slice());
        Ok(SingleKeySet { time_generated: time, pub_key_base64, pkcs8 })
    }

    /// The instant the pair was generated.
    pub fn time_generated(&self) -> (r: &ProveWhenTime)
        ensures
            r@ == self@.time,
    {
        &self.time_generated
    }

    /// Base64 of the public half.
    pub fn pub_key_base64(&self) -> (r: &str)
        ensures
            r@ == self@.pk_b64,
    {
        self.pub_key_base64.as_str()
    }

    /// The PKCS#8 document holding the pair, for persistence only. The
    /// surrounding service must never emit it in any response.
    pub fn pkcs8(&self) -> (r: &Vec<u8>)
        ensures
            r@ == self@.pkcs8,
    {
        &self.pkcs8
    }

    /// Base64 of the detached signature this key produces over a message.
    pub fn sign_base64(&self, msg: &str) -> (r: Result<String, Error>)
        requires
            key_wf(self@),
        ensures
            r is Ok,
            r.unwrap()@ == b64_of(sig_of(self@.pkcs8, msg@)),
            b64_decode_of(r.unwrap()@) == Some(sig_of(self@.pkcs8, msg@)),
            sig_valid(pub_key_of(self@.pkcs8), msg@, sig_of(self@.pkcs8, msg@)),
    {
        let sig = match sign_with_pkcs8(self.pkcs8.as_slice(), msg) {
            Ok(s) => s,
            Err(e) => {
                // The document is accepted by well-formedness, so signing
                // cannot be refused.
                proof {
                    assert(false);
                }
                return Err(e);
            },
        };
        Ok(b64_encode(sig.as_slice()))
    }

    /// Signs a message as of the instant `now`: generates a fresh nonce,
    /// builds the canonical payload from the instant, the message and the
    /// nonce, and returns the full proof.
    pub fn sign(&self, now: ProveWhenTime, msg: &str) -> (r: Result<SignResponse, Error>)
        requires
            key_wf(self@),
            time_wf(now@),
        ensures
            match r {
                Ok(p) => {
                    &&& p.timestamp@ == now@
                    &&& p.key_time@ == self@.time
                    &&& p.public_key@ == self@.pk_b64
                    &&& p.message@ == msg@
                    &&& proof_wf(p)
                    &&& exists|data: Seq<u8>|
                        data.len() == 32 && p.nonce@ == nonce_prefix() + #[trigger] b64_of(data)
                    &&& p.signature@ == b64_of(
                        sig_of(self@.pkcs8, signable_of(now@, msg@, p.nonce@)),
                    )
                    &&& b64_decode_of(p.signature@) == Some(
                        sig_of(self@.pkcs8, signable_of(now@, msg@, p.nonce@)),
                    )
                    &&& sig_valid(
                        pub_key_of(self@.pkcs8),
                        signable_of(now@, msg@, p.nonce@),
                        sig_of(self@.pkcs8, signable_of(now@, msg@, p.nonce@)),
                    )
                },
                Err(e) => e == Error::Random,
            },
    {
        let msg_nonce = match nonce() {
            Ok(n) => n,
            Err(e) => {
                return Err(e);
            },
        };
        let msg_to_sign = raw_msg_to_signable(&now, msg, msg_nonce.as_str());
        let sg = match self.sign_base64(msg_to_sign.as_str()) {
            Ok(s) => s,
            Err(e) => {
                return Err(e);
            },
        };
        let kt = self.time_generated.clone();
        let pk = self.pub_key_base64.clone();
        Ok(SignResponse {
            timestamp: now,
            key_time: kt,
            public_key: pk,
            message: msg.to_owned(),
            signature: sg,
            nonce: msg_nonce,
        })
    }
}

/// The mathematical model of a historical key record.
pub ghost struct RecordModel {
    /// The generation instant of the retired key.
    pub time: TimeModel,
    /// Base64 of its public half.
    pub pk: Seq<char>,
}

/// A record whose instant is well-formed.
pub open spec fn record_wf(r: RecordModel) -> bool {
    time_wf(r.time)
}

/// An immutable, time-stamped record of a retired public key. It carries its
/// own attestation where one was produced: a proof signed by the key over a
/// demonstration message at its generation instant, kept as a human-auditable
/// trace that the key was live then. Records are compared and looked up by
/// time alone.
pub struct TimedPublicKey {
    time: ProveWhenTime,
    public_key: String,
    attestation: Option<SignResponse>,
}

impl View for TimedPublicKey {
    type V = RecordModel;

    closed spec fn view(&self) -> RecordModel {
        RecordModel { time: self.time@, pk: self.public_key@ }
    }
}

impl Clone for TimedPublicKey {
    fn clone(&self) -> (r: Self)
        ensures
            r == *self,
    {
        TimedPublicKey {
            time: self.time.clone(),
            public_key: self.public_key.clone(),
            attestation: match &self.attestation {
                Some(p) => Some(p.clone()),
                None => None,
            },
        }
    }
}

/// The fixed demonstration message every retiring key signs over itself.
/// Where a deployment would sample a human-readable snippet, the core keeps
/// one fixed message: the attestation's purpose — an auditable proof that
/// the key was live at its instant — needs no variety, and a fixed message
/// keeps the core free of snippet files and extra randomness.
pub open spec fn demo_message() -> Seq<char> {
    "demonstration of key liveness at rotation"@
}

/// A self-signed attestation of `key` as of its own generation instant:
/// the proof's timestamp and key time are the key's instant, it claims the
/// key's public half, its message is the demonstration message, its nonce
/// has the nonce shape, and its signature decodes to the key's valid
/// detached signature over the canonical payload.
pub open spec fn attests(p: SignResponse, key: KeyModel) -> bool {
    &&& p.timestamp@ == key.time
    &&& p.key_time@ == key.time
    &&& p.public_key@ == key.pk_b64
    &&& p.message@ == demo_message()
    &&& proof_wf(p)
    &&& exists|data: Seq<u8>|
        data.len() == 32 && p.nonce@ == nonce_prefix() + #[trigger] b64_of(data)
    &&& b64_decode_of(p.signature@) == Some(
        sig_of(key.pkcs8, signable_of(key.time, demo_message(), p.nonce@)),
    )
    &&& sig_valid(
        pub_key_of(key.pkcs8),
        signable_of(key.time, demo_message(), p.nonce@),
        sig_of(key.pkcs8, signable_of(key.time, demo_message(), p.nonce@)),
    )
}

impl TimedPublicKey {
    /// The attestation the record carries, as the contracts see it.
    pub closed spec fn spec_attestation(&self) -> Option<SignResponse> {
        self.attestation
    }

    /// A record from its bare parts, with no attestation.
    pub fn new(time: ProveWhenTime, public_key: String) -> (r: Self)
        requires
            time_wf(time@),
        ensures
            r@.time == time@,
            r@.pk == public_key@,
            record_wf(r@),
            r.spec_attestation() is None,
    {
        TimedPublicKey { time, public_key, attestation: None }
    }

    /// A record rebuilt from its persisted parts, its attestation included.
    pub fn with_attestation(
        time: ProveWhenTime,
        public_key: String,
        attestation: SignResponse,
    ) -> (r: Self)
        requires
            time_wf(time@),
        ensures
            r@.time == time@,
            r@.pk == public_key@,
            record_wf(r@),
            r.spec_attestation() == Some(attestation),
    {
        TimedPublicKey { time, public_key, attestation: Some(attestation) }
    }

    /// The record a key set leaves behind when it is retired: its generation
    /// instant and public half, attested by a proof the key signs over the
    /// demonstration message as of that instant.
    pub fn from_single_keyset(key: &SingleKeySet) -> (r: Result<Self, Error>)
        requires
            key_wf(key@),
        ensures
            match r {
                Ok(t) => {
                    &&& t@.time == key@.time
                    &&& t@.pk == key@.pk_b64
                    &&& record_wf(t@)
                    &&& match t.spec_attestation() {
                        Some(p) => attests(p, key@),
                        None => false,
                    }
                },
                Err(e) => e == Error::Random,
            },
    {
        let at = key.time_generated.clone();
        let attestation = match key.sign(at, "demonstration of key liveness at rotation") {
            Ok(p) => p,
            Err(e) => {
                return Err(e);
            },
        };
        Ok(TimedPublicKey {
            time: key.time_generated.clone(),
            public_key: key.pub_key_base64.clone(),
            attestation: Some(attestation),
        })
    }

    /// The record's instant.
    pub fn time(&self) -> (r: &ProveWhenTime)
        ensures
            r@ == self@.time,
    {
        &self.time
    }

    /// Base64 of the recorded public key.
    pub fn public_key(&self) -> (r: &str)
        ensures
            r@ == self@.pk,
    {
        self.public_key.as_str()
    }

    /// Whether the recorded public key equals `other`, character for
    /// character.
    pub fn pk_equals(&self, other: &str) -> (r: bool)
        ensures
            r == (self@.pk == other@),
    {
        let o = other.to_owned();
        self.public_key == o
    }

    /// The self-signed attestation, where one was produced.
    pub fn attestation(&self) -> (r: &Option<SignResponse>)
        ensures
            *r == self.spec_attestation(),
    {
        &self.attestation
    }
}

} // verus!
