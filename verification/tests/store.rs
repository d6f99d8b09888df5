use provewhen::datetime_utils::ProveWhenTime;
use provewhen::errors::Error;
use provewhen::key_types::{nonce, SingleKeySet};
use provewhen::pub_key_storage::KeyDB;

#[test]
fn sign_verify() {
    let kdb = KeyDB::new().unwrap();
    let now = ProveWhenTime::now();

    let signed = kdb.current_key().sign(now, "This is a test of the KeyDB").unwrap();

    assert!(kdb.verify(&signed).is_ok());
}

#[test]
fn sign_verify_bad_time() {
    let kdb = KeyDB::new().unwrap();
    let now = ProveWhenTime::now();

    let mut signed = kdb.current_key().sign(now, "This is a test of the KeyDB").unwrap();

    signed.timestamp = ProveWhenTime::now();

    assert!(kdb.verify(&signed).is_err());
}

#[test]
fn sign_verify_bad_message() {
    let kdb = KeyDB::new().unwrap();
    let now = ProveWhenTime::now();

    let mut signed = kdb.current_key().sign(now, "This is a test of the KeyDB").unwrap();

    signed.message = "This message has changed".into();

    assert!(kdb.verify(&signed).is_err());
}

#[test]
fn sign_verify_bad_nonce() {
    let kdb = KeyDB::new().unwrap();
    let now = ProveWhenTime::now();

    let mut signed = kdb.current_key().sign(now, "This is a test of the KeyDB").unwrap();

    signed.nonce = nonce().unwrap();

    assert!(kdb.verify(&signed).is_err());
}

#[test]
fn sign_verify_old_key() {
    let mut kdb = KeyDB::new().unwrap();

    // Fill in some old keys
    for _ in 0..50 {
        kdb.rotate(SingleKeySet::new().unwrap()).unwrap();
    }

    // Sign a message
    let now = ProveWhenTime::now();
    let signed = kdb.current_key().sign(now, "This is a test of the KeyDB").unwrap();

    // Fill in some more old keys
    for _ in 0..50 {
        kdb.rotate(SingleKeySet::new().unwrap()).unwrap();
    }

    // Check the message
    assert!(kdb.verify(&signed).is_ok());
}

#[test]
fn sign_verify_bad_public_key() {
    let kdb = KeyDB::new().unwrap();
    let now = ProveWhenTime::now();

    let mut signed = kdb.current_key().sign(now, "tamper with the key").unwrap();

    signed.public_key = "c29tZSBvdGhlciBrZXk=".into();

    assert_eq!(kdb.verify(&signed), Err(Error::KeyMismatch));
}

#[test]
fn sign_verify_bad_signature() {
    let kdb = KeyDB::new().unwrap();
    let now = ProveWhenTime::now();

    let mut signed = kdb.current_key().sign(now, "tamper with the signature").unwrap();

    // Valid base64, but not the right signature.
    signed.signature = "c2lnbmF0dXJlIGJ5dGVzIHRoYXQgYXJlIHdyb25n".into();

    assert_eq!(kdb.verify(&signed), Err(Error::SignatureMismatch));
}

#[test]
fn sign_verify_undecodable_signature() {
    let kdb = KeyDB::new().unwrap();
    let now = ProveWhenTime::now();

    let mut signed = kdb.current_key().sign(now, "mangle the signature").unwrap();

    signed.signature = "!!! not base64 !!!".into();

    assert_eq!(kdb.verify(&signed), Err(Error::Decode));
}

#[test]
fn fresh_keys_are_distinct() {
    let a = SingleKeySet::new().unwrap();
    let b = SingleKeySet::new().unwrap();
    assert_ne!(a.pub_key_base64(), b.pub_key_base64());
}

#[test]
fn rotation_grows_history_by_one_per_quantum() {
    // A store whose current key expired many quanta ago rotates exactly
    // once per rotation check, never losing a record.
    let old_time = ProveWhenTime::from_str("2024-01-01T00:00:00Z").unwrap();
    let key = SingleKeySet::from_time(old_time).unwrap();
    let mut kdb = KeyDB::from_parts(key, Vec::new());

    assert_eq!(kdb.old_keys().len(), 0);

    let first = kdb.get_current().unwrap();
    assert_eq!(kdb.old_keys().len(), 1);
    assert_eq!(
        kdb.old_keys()[0].time().as_str(),
        "2024-01-01T00:00:00+00:00"
    );

    // The fresh key sits on the current quantum boundary, so an immediate
    // second check does not rotate again.
    let second = kdb.get_current().unwrap();
    assert_eq!(kdb.old_keys().len(), 1);
    assert_eq!(first.pub_key_base64(), second.pub_key_base64());
}

#[test]
fn retired_record_attestation_verifies() {
    // The record a key leaves behind carries a self-signed attestation over
    // the demonstration message, verifiable like any other proof.
    let t0 = ProveWhenTime::from_str("2024-01-01T00:00:00Z").unwrap();
    let key = SingleKeySet::from_time(t0).unwrap();
    let kdb = KeyDB::from_parts(key, Vec::new());

    let record =
        provewhen::key_types::TimedPublicKey::from_single_keyset(kdb.current_key()).unwrap();
    let attestation = record.attestation().as_ref().unwrap().clone();

    assert_eq!(
        attestation.message,
        "demonstration of key liveness at rotation"
    );
    assert!(attestation.timestamp.is_same(record.time()));
    assert_eq!(attestation.public_key, record.public_key());
    assert!(kdb.verify(&attestation).is_ok());
}

#[test]
fn concrete_scenario_hello() {
    // Sign "hello" as of 2024-01-01T00:00:00Z with a key generated at that
    // very instant; altering the message must fail as a signature mismatch,
    // not a key mismatch.
    let t0 = ProveWhenTime::from_str("2024-01-01T00:00:00Z").unwrap();
    let key = SingleKeySet::from_time(t0.clone()).unwrap();
    assert!(key.time_generated().is_same(&t0));
    assert_eq!(key.time_generated().as_str(), "2024-01-01T00:00:00+00:00");

    let kdb = KeyDB::from_parts(key, Vec::new());
    let mut signed = kdb.current_key().sign(t0, "hello").unwrap();
    assert!(kdb.verify(&signed).is_ok());

    signed.message = "hello!".into();
    let verdict = kdb.verify(&signed);
    assert_eq!(verdict, Err(Error::SignatureMismatch));
    assert_ne!(verdict, Err(Error::KeyMismatch));
}
