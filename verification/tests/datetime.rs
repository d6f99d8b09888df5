use provewhen::datetime_utils::{DateTimeRange, ProveWhenTime};
use provewhen::errors::Error;
use provewhen::key_types::{nonce, raw_msg_to_signable};

#[test]
fn parse_and_render_canonical() {
    let t = ProveWhenTime::from_str("2024-01-01T00:00:00Z").unwrap();
    assert_eq!(t.as_str(), "2024-01-01T00:00:00+00:00");

    // The canonical rendering parses back to the same instant.
    let again = ProveWhenTime::from_str(t.as_str()).unwrap();
    assert!(t.is_same(&again));
}

#[test]
fn parse_rejects_malformed() {
    assert!(matches!(
        ProveWhenTime::from_str("not a timestamp"),
        Err(Error::Parse)
    ));
    assert!(matches!(
        ProveWhenTime::from_str("2024-01-01"),
        Err(Error::Parse)
    ));
    assert!(matches!(
        ProveWhenTime::from_str("2024-13-01T00:00:00Z"),
        Err(Error::Parse)
    ));
}

#[test]
fn parse_keeps_offset_instants() {
    // An offset timestamp denotes the same instant as its UTC rendering.
    let offset = ProveWhenTime::from_str("2024-01-01T05:30:00+05:30").unwrap();
    let utc = ProveWhenTime::from_str("2024-01-01T00:00:00Z").unwrap();
    assert!(offset.is_same(&utc));
}

#[test]
fn ordering_is_by_instant() {
    let a = ProveWhenTime::from_str("2024-01-01T00:00:00Z").unwrap();
    let b = ProveWhenTime::from_str("2024-01-01T00:00:00.000000001Z").unwrap();
    assert!(a.is_before(&b));
    assert!(!b.is_before(&a));
    assert!(!a.is_same(&b));
}

#[test]
fn floored_truncates_to_quantum() {
    let t = ProveWhenTime::from_str("2024-01-01T00:07:33.5Z").unwrap();
    let f = t.floored();
    assert_eq!(f.as_str(), "2024-01-01T00:05:00+00:00");

    // Flooring is idempotent.
    let ff = f.floored();
    assert!(f.is_same(&ff));
}

#[test]
fn floored_keeps_boundary_instants() {
    let t = ProveWhenTime::from_str("2024-01-01T00:10:00Z").unwrap();
    assert!(t.floored().is_same(&t));
}

#[test]
fn range_steps_by_quantum_to_inclusive_end() {
    let mut gen = DateTimeRange::from_strs(
        "2024-01-01T00:00:00Z",
        "2024-01-01T00:20:00Z",
    )
    .unwrap();

    let mut seen = Vec::new();
    while let Some(t) = gen.next() {
        seen.push(t.as_str().to_string());
    }
    assert_eq!(
        seen,
        vec![
            "2024-01-01T00:05:00+00:00",
            "2024-01-01T00:10:00+00:00",
            "2024-01-01T00:15:00+00:00",
            "2024-01-01T00:20:00+00:00",
        ]
    );
}

#[test]
fn range_floors_raw_bounds() {
    // Raw bounds are floored first: the start's own floor is never
    // produced, and the sequence ends at the floored end.
    let mut gen = DateTimeRange::from_strs(
        "2024-01-01T00:02:10Z",
        "2024-01-01T00:13:59Z",
    )
    .unwrap();

    let mut seen = Vec::new();
    while let Some(t) = gen.next() {
        seen.push(t.as_str().to_string());
    }
    assert_eq!(
        seen,
        vec!["2024-01-01T00:05:00+00:00", "2024-01-01T00:10:00+00:00"]
    );
}

#[test]
fn range_empty_when_end_not_after_start() {
    let mut gen = DateTimeRange::from_strs(
        "2024-01-01T00:20:00Z",
        "2024-01-01T00:00:00Z",
    )
    .unwrap();
    assert!(gen.next().is_none());

    let mut same = DateTimeRange::from_strs(
        "2024-01-01T00:04:00Z",
        "2024-01-01T00:04:59Z",
    )
    .unwrap();
    assert!(same.next().is_none());
}

#[test]
fn range_from_strs_rejects_bad_bounds() {
    assert!(matches!(
        DateTimeRange::from_strs("not a timestamp", "2024-01-01T00:00:00Z"),
        Err(Error::Parse)
    ));
    assert!(matches!(
        DateTimeRange::from_strs("2024-01-01T00:00:00Z", "later"),
        Err(Error::Parse)
    ));
}

#[test]
fn range_is_restartable() {
    let collect = || {
        let mut gen = DateTimeRange::from_strs(
            "2024-01-01T00:00:00Z",
            "2024-01-01T00:15:00Z",
        )
        .unwrap();
        let mut seen = Vec::new();
        while let Some(t) = gen.next() {
            seen.push(t.as_str().to_string());
        }
        seen
    };
    assert_eq!(collect(), collect());
}

#[test]
fn signable_payload_shape() {
    let t = ProveWhenTime::from_str("2024-01-01T00:00:00Z").unwrap();
    let payload = raw_msg_to_signable(&t, "hello", "provewhen.io:AAAA");
    assert_eq!(
        payload,
        "2024-01-01T00:00:00+00:00;hello;provewhen.io:AAAA"
    );
}

#[test]
fn nonce_shape_and_freshness() {
    let a = nonce().unwrap();
    let b = nonce().unwrap();

    // Fixed prefix plus base64 of 32 random bytes (44 characters padded).
    assert!(a.starts_with("provewhen.io:"));
    assert_eq!(a.len(), "provewhen.io:".len() + 44);
    assert_ne!(a, b);
}
