use provewhen::datetime_utils::ProveWhenTime;
use provewhen::errors::Error;
use provewhen::key_types::{SingleKeySet, TimedPublicKey};
use provewhen::pub_key_storage::KeyDB;

fn record(time: &str, pk: &str) -> TimedPublicKey {
    TimedPublicKey::new(ProveWhenTime::from_str(time).unwrap(), pk.into())
}

fn three_record_store() -> KeyDB {
    let current = SingleKeySet::from_time(
        ProveWhenTime::from_str("2024-01-01T01:00:00Z").unwrap(),
    )
    .unwrap();
    let history = vec![
        record("2024-01-01T00:00:00Z", "pk1"),
        record("2024-01-01T00:05:00Z", "pk2"),
        record("2024-01-01T00:10:00Z", "pk3"),
    ];
    KeyDB::from_parts(current, history)
}

#[test]
fn lookup_exact_match() {
    let kdb = three_record_store();
    let t2 = ProveWhenTime::from_str("2024-01-01T00:05:00Z").unwrap();
    let (kt, pk) = kdb.get_public_key_by_time(&t2).unwrap();
    assert!(kt.is_same(&t2));
    assert_eq!(pk, "pk2");
}

#[test]
fn lookup_predecessor() {
    // No exact match: the closest key at or before the instant answers.
    let kdb = three_record_store();
    let t = ProveWhenTime::from_str("2024-01-01T00:07:33Z").unwrap();
    let (kt, pk) = kdb.get_public_key_by_time(&t).unwrap();
    assert_eq!(kt.as_str(), "2024-01-01T00:05:00+00:00");
    assert_eq!(pk, "pk2");
}

#[test]
fn lookup_before_history() {
    let kdb = three_record_store();
    let t = ProveWhenTime::from_str("2023-12-31T23:59:59Z").unwrap();
    assert!(matches!(
        kdb.get_public_key_by_time(&t),
        Err(Error::BeforeHistory)
    ));
}

#[test]
fn lookup_future() {
    let kdb = three_record_store();
    let t = ProveWhenTime::from_str("9999-12-31T23:59:59Z").unwrap();
    assert!(matches!(
        kdb.get_public_key_by_time(&t),
        Err(Error::FutureTime)
    ));
}

#[test]
fn lookup_current_key_window() {
    // From the current key's generation instant onward, the current key is
    // authoritative; an instant just before it falls back to the history.
    let kdb = three_record_store();
    let at = ProveWhenTime::from_str("2024-01-01T01:00:00Z").unwrap();
    let (kt, pk) = kdb.get_public_key_by_time(&at).unwrap();
    assert!(kt.is_same(&at));
    assert_eq!(pk, kdb.current_key().pub_key_base64());

    let just_before = ProveWhenTime::from_str("2024-01-01T00:59:59Z").unwrap();
    let (_, pk2) = kdb.get_public_key_by_time(&just_before).unwrap();
    assert_eq!(pk2, "pk3");
}

#[test]
fn range_half_open_window() {
    let kdb = three_record_store();
    let t1 = ProveWhenTime::from_str("2024-01-01T00:00:00Z").unwrap();
    let t3 = ProveWhenTime::from_str("2024-01-01T00:10:00Z").unwrap();

    let keys = kdb.range(&t1, &t3).unwrap();
    assert_eq!(keys.len(), 2);
    assert_eq!(keys[0].public_key(), "pk1");
    assert_eq!(keys[1].public_key(), "pk2");
}

#[test]
fn range_malformed() {
    let kdb = three_record_store();
    let t1 = ProveWhenTime::from_str("2024-01-01T00:00:00Z").unwrap();
    let t3 = ProveWhenTime::from_str("2024-01-01T00:10:00Z").unwrap();
    assert!(matches!(kdb.range(&t3, &t1), Err(Error::MalformedRange)));
}

#[test]
fn range_caps_at_fifty() {
    let current = SingleKeySet::from_time(
        ProveWhenTime::from_str("2024-01-02T00:00:00Z").unwrap(),
    )
    .unwrap();
    let mut history = Vec::new();
    for i in 0..60 {
        let stamp = format!(
            "2024-01-01T{:02}:{:02}:00Z",
            i / 12,
            (i % 12) * 5
        );
        history.push(record(&stamp, &format!("pk{}", i)));
    }
    let kdb = KeyDB::from_parts(current, history);

    let start = ProveWhenTime::from_str("2024-01-01T00:00:00Z").unwrap();
    let end = ProveWhenTime::from_str("2024-01-01T23:00:00Z").unwrap();
    let keys = kdb.range(&start, &end).unwrap();
    assert_eq!(keys.len(), 50);
    assert_eq!(keys[0].public_key(), "pk0");
    assert_eq!(keys[49].public_key(), "pk49");
}

#[test]
fn defrost_sorts_and_fills() {
    // An unsorted loaded history is sorted; the current key is archived
    // because its public half was never recorded; the missed boundaries
    // between the latest record and the current key are back-filled.
    let current = SingleKeySet::from_time(
        ProveWhenTime::from_str("2024-01-01T00:30:00Z").unwrap(),
    )
    .unwrap();
    let history = vec![
        record("2024-01-01T00:10:00Z", "pk3"),
        record("2024-01-01T00:00:00Z", "pk1"),
        record("2024-01-01T00:05:00Z", "pk2"),
    ];
    let mut kdb = KeyDB::from_parts(current, history);
    kdb.defrost().unwrap();

    // 3 loaded + 1 archived current + back-filled 00:15, 00:20, 00:25
    // (00:30 already carries the archived current key's record).
    assert_eq!(kdb.old_keys().len(), 7);
    let times: Vec<&str> = kdb.old_keys().iter().map(|k| k.time().as_str()).collect();
    assert_eq!(
        times,
        vec![
            "2024-01-01T00:00:00+00:00",
            "2024-01-01T00:05:00+00:00",
            "2024-01-01T00:10:00+00:00",
            "2024-01-01T00:15:00+00:00",
            "2024-01-01T00:20:00+00:00",
            "2024-01-01T00:25:00+00:00",
            "2024-01-01T00:30:00+00:00",
        ]
    );
    assert_eq!(
        kdb.old_keys()[6].public_key(),
        kdb.current_key().pub_key_base64()
    );
}

#[test]
fn defrost_twice_is_once() {
    let current = SingleKeySet::from_time(
        ProveWhenTime::from_str("2024-01-01T00:30:00Z").unwrap(),
    )
    .unwrap();
    let history = vec![
        record("2024-01-01T00:10:00Z", "pk3"),
        record("2024-01-01T00:00:00Z", "pk1"),
        record("2024-01-01T00:05:00Z", "pk2"),
    ];
    let mut kdb = KeyDB::from_parts(current, history);
    kdb.defrost().unwrap();

    let once: Vec<(String, String)> = kdb
        .old_keys()
        .iter()
        .map(|k| (k.time().as_str().to_string(), k.public_key().to_string()))
        .collect();
    let current_pk_once = kdb.current_key().pub_key_base64().to_string();

    kdb.defrost().unwrap();

    let twice: Vec<(String, String)> = kdb
        .old_keys()
        .iter()
        .map(|k| (k.time().as_str().to_string(), k.public_key().to_string()))
        .collect();
    assert_eq!(once, twice);
    assert_eq!(current_pk_once, kdb.current_key().pub_key_base64());
}

#[test]
fn defrost_drops_duplicate_times() {
    // Two loaded records for one instant: the history keeps one record per
    // instant, the first one loaded.
    let current = SingleKeySet::from_time(
        ProveWhenTime::from_str("2024-01-01T00:05:00Z").unwrap(),
    )
    .unwrap();
    let history = vec![
        record("2024-01-01T00:00:00Z", "pk_first"),
        record("2024-01-01T00:00:00Z", "pk_second"),
    ];
    let mut kdb = KeyDB::from_parts(current, history);
    kdb.defrost().unwrap();

    let at_duplicate = ProveWhenTime::from_str("2024-01-01T00:00:00Z").unwrap();
    let (_, pk) = kdb.get_public_key_by_time(&at_duplicate).unwrap();
    assert_eq!(pk, "pk_first");
    assert_eq!(kdb.old_keys().len(), 2);
}

#[test]
fn defrost_empty_history_archives_current() {
    let current = SingleKeySet::from_time(
        ProveWhenTime::from_str("2024-01-01T00:30:00Z").unwrap(),
    )
    .unwrap();
    let pk = current.pub_key_base64().to_string();
    let mut kdb = KeyDB::from_parts(current, Vec::new());
    kdb.defrost().unwrap();

    assert_eq!(kdb.old_keys().len(), 1);
    assert_eq!(kdb.old_keys()[0].public_key(), pk);
    assert_eq!(
        kdb.old_keys()[0].time().as_str(),
        "2024-01-01T00:30:00+00:00"
    );
}
