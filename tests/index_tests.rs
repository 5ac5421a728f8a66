use fhistory::error::IndexError;
use fhistory::filename::{format_index_filename, split_index_filename};
use fhistory::index::{resolve_index_dir, IndexData, IndexList, IndexReference};

const H: &str = "0a1b2c";

fn names(v: &[&str]) -> Vec<String> {
    v.iter().map(|s| s.to_string()).collect()
}

#[test]
fn filename_parses_valid_forms() {
    for date in [
        "2018-03-04T05:06:07",
        "2018-03-04T05:06:07Z",
        "2018-03-04T05:06:07.123456",
        "2018-03-04T05:06:07.5+01:30",
        "2018-03-04T05:06:07-05:00",
    ] {
        let name = format!("fhistory-{}-{}", date, H);
        assert_eq!(split_index_filename(&name), Some((date.to_string(), H.to_string())));
    }
}

#[test]
fn filename_rejects_invalid_forms() {
    for name in [
        "",
        "fhistory-",
        "fhistory-2018-03-04T05:06:07",
        "fhistory-2018-03-04T05:06:07-",
        "fhistory-2018-03-04T05:06:07-ABC",
        "fhistory-2018-03-04 05:06:07-abc",
        "fhistory-2018-03-04T05:06:07.-abc",
        "fhistory-2018-03-04T05:06:07+0100-abc",
        "fhistory-18-03-04T05:06:07-abc",
        "history-2018-03-04T05:06:07-abc",
        "notes.txt",
    ] {
        assert_eq!(split_index_filename(name), None, "{}", name);
        assert!(matches!(
            IndexReference::from_filename(name),
            Err(IndexError::InvalidFilename { .. })
        ));
    }
}

#[test]
fn filename_round_trip() {
    let name = format_index_filename("2020-12-31T23:59:59.999Z", "deadbeef");
    assert_eq!(name, "fhistory-2020-12-31T23:59:59.999Z-deadbeef");
    assert_eq!(
        split_index_filename(&name),
        Some(("2020-12-31T23:59:59.999Z".to_string(), "deadbeef".to_string()))
    );
}

#[test]
fn timestamp_of_dates() {
    let r = IndexReference::from_filename("fhistory-1970-01-01T00:00:00Z-a").unwrap();
    assert_eq!(r.timestamp_us, 0);
    let r = IndexReference::from_filename("fhistory-2018-01-01T00:00:00Z-a").unwrap();
    assert_eq!(r.timestamp_us, 1_514_764_800_000_000);
    let r = IndexReference::from_filename("fhistory-2018-01-01T01:00:00.25+01:00-a").unwrap();
    assert_eq!(r.timestamp_us, 1_514_764_800_250_000);
    let r = IndexReference::from_filename("fhistory-2000-03-01T00:00:00.1234567-a").unwrap();
    assert_eq!(r.timestamp_us, 951_868_800_123_456);
    let r = IndexReference::from_filename("fhistory-1969-12-31T23:59:59-a").unwrap();
    assert_eq!(r.timestamp_us, -1_000_000);
}

#[test]
fn store_orders_by_timestamp() {
    let n1 = "fhistory-2018-01-01T00:00:00Z-aaa";
    let n2 = "fhistory-2018-01-01T09:30:00+01:00-bbb";
    let n3 = "fhistory-2018-01-02T00:00:00Z-ccc";
    for order in [[n3, n1, n2], [n2, n3, n1], [n1, n2, n3]] {
        let l = IndexList::from_filenames("h".to_string(), &names(&order)).unwrap();
        let hashes: Vec<&str> = l.list().iter().map(|r| r.hash.as_str()).collect();
        assert_eq!(hashes, vec!["aaa", "bbb", "ccc"]);
        assert_eq!(l.latest().unwrap().hash, "ccc");
    }
}

#[test]
fn store_latest_uses_zone_offsets() {
    // 10:00 at +02:00 is 08:00 UTC, earlier than 09:00 UTC.
    let l = IndexList::from_filenames(
        "h".to_string(),
        &names(&["fhistory-2018-01-01T09:00:00Z-late", "fhistory-2018-01-01T10:00:00+02:00-early"]),
    )
    .unwrap();
    assert_eq!(l.latest().unwrap().hash, "late");
    assert_eq!(l.list()[0].hash, "early");
}

#[test]
fn store_empty_and_invalid() {
    let l = IndexList::from_filenames("h".to_string(), &vec![]).unwrap();
    assert!(l.latest().is_none());
    assert!(l.list().is_empty());
    assert_eq!(l.index_dir(), "h");
    let e = IndexList::from_filenames(
        "h".to_string(),
        &names(&["fhistory-2018-01-01T00:00:00Z-aaa", "README"]),
    );
    assert!(matches!(e, Err(IndexError::InvalidFilename { name }) if name == "README"));
}

#[test]
fn store_add_is_idempotent_for_same_name() {
    let mut l = IndexList::new("h".to_string());
    let body = IndexData { bytes: b"{\"files\":[]}".to_vec() };
    let r = IndexReference::for_body("2018-05-05T05:05:05Z", &body).unwrap();
    assert_eq!(r.hash, fhistory::checksum::fingerprint(&body.bytes));
    assert!(l.add(r.clone()));
    assert!(!l.add(r.clone()));
    assert_eq!(l.list().len(), 1);
    let older = IndexReference::from_filename("fhistory-2017-01-01T00:00:00Z-abc").unwrap();
    assert!(l.add(older));
    assert_eq!(l.list()[0].hash, "abc");
    assert_eq!(l.latest().unwrap().hash, r.hash);
    assert_eq!(
        r.filename(),
        format!("fhistory-2018-05-05T05:05:05Z-{}", r.hash)
    );
}

#[test]
fn for_body_rejects_invalid_date() {
    let body = IndexData { bytes: vec![1, 2, 3] };
    assert!(IndexReference::for_body("yesterday", &body).is_none());
}

#[test]
fn tampered_body_fails_integrity_check() {
    let body = IndexData { bytes: b"snapshot body".to_vec() };
    let r = IndexReference::for_body("2018-05-05T05:05:05Z", &body).unwrap();
    assert!(r.verify_body(&body).is_ok());
    let tampered = IndexData { bytes: b"snapshot bodY".to_vec() };
    match r.verify_body(&tampered) {
        Err(IndexError::IntegrityMismatch { expected, actual }) => {
            assert_eq!(expected, r.hash);
            assert_eq!(actual, fhistory::checksum::fingerprint(&tampered.bytes));
        }
        other => panic!("unexpected {:?}", other),
    }
}

#[test]
fn index_dir_resolution() {
    assert_eq!(resolve_index_dir("/data", "/abs/hist"), "/abs/hist");
    assert_eq!(resolve_index_dir("/data", ".fhistory"), "/data/.fhistory");
    assert_eq!(resolve_index_dir("/data/", ".fhistory"), "/data/.fhistory");
    assert_eq!(resolve_index_dir("", ".fhistory"), ".fhistory");
    assert_eq!(resolve_index_dir(".", ".fhistory"), "./.fhistory");
}
