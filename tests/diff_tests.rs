use fhistory::checksum::fingerprint;
use fhistory::snapshot::{diff, diff_files, find_path, IndexDiff, IndexFileInfo, IndexSnapshot};

fn rec(path: &str, content: &str, perms: u32, mtime: i64) -> IndexFileInfo {
    IndexFileInfo {
        path: path.to_string(),
        size_bytes: content.len() as u64,
        modified_timestamp_us: mtime,
        permissions: perms,
        checksum: fingerprint(content.as_bytes()),
    }
}

fn snap(files: Vec<IndexFileInfo>) -> IndexSnapshot {
    IndexSnapshot::new(files, 0, None).unwrap()
}

#[test]
fn fingerprint_known_values() {
    assert_eq!(
        fingerprint(b""),
        "e3b0c44298fc1c149afbf4c8996fb92427ae41e4649b934ca495991b7852b855"
    );
    assert_eq!(
        fingerprint(b"abc"),
        "ba7816bf8f01cfea414140de5dae2223b00361a396177a9cb410ff61f20015ad"
    );
}

#[test]
fn fingerprint_is_deterministic() {
    let a = fingerprint(b"some file content");
    let b = fingerprint(b"some file content");
    assert_eq!(a, b);
    assert_eq!(a.len(), 64);
    assert_ne!(a, fingerprint(b"some file content!"));
}

#[test]
fn diff_of_snapshot_with_itself_is_empty() {
    let s = snap(vec![rec("a", "x", 0o644, 1), rec("b/c", "y", 0o755, 2)]);
    assert!(diff(&s, &s).is_empty());
    let empty = snap(vec![]);
    assert!(diff(&empty, &empty).is_empty());
}

#[test]
fn diff_created_and_deleted_by_direction() {
    let a = snap(vec![rec("a", "x", 0o644, 1)]);
    let b = snap(vec![rec("a", "x", 0o644, 1), rec("new", "fresh", 0o644, 1)]);
    assert_eq!(diff(&a, &b), vec![IndexDiff::Created { file: "new".to_string() }]);
    assert_eq!(diff(&b, &a), vec![IndexDiff::Deleted { file: "new".to_string() }]);
}

#[test]
fn diff_collapses_rename() {
    let base = snap(vec![rec("a", "X", 0o644, 1)]);
    let target = snap(vec![rec("b", "X", 0o644, 1)]);
    assert_eq!(
        diff(&base, &target),
        vec![IndexDiff::Renamed { from: "a".to_string(), to: "b".to_string() }]
    );
}

#[test]
fn diff_metadata_only_change() {
    let base = snap(vec![rec("a", "X", 0o644, 1)]);
    let target = snap(vec![rec("a", "X", 0o600, 1)]);
    assert_eq!(diff(&base, &target), vec![IndexDiff::MetadataModified { file: "a".to_string() }]);
    let touched = snap(vec![rec("a", "X", 0o644, 99)]);
    assert_eq!(diff(&base, &touched), vec![IndexDiff::MetadataModified { file: "a".to_string() }]);
}

#[test]
fn diff_content_change_dominates_metadata() {
    let base = snap(vec![rec("a", "X", 0o644, 1)]);
    let target = snap(vec![rec("a", "Y", 0o600, 5)]);
    assert_eq!(diff(&base, &target), vec![IndexDiff::Modified { file: "a".to_string() }]);
}

#[test]
fn diff_rename_tie_break_follows_snapshot_order() {
    let base = snap(vec![rec("a1", "D", 0o644, 1), rec("a2", "D", 0o644, 1), rec("k", "K", 0o644, 1)]);
    let target = snap(vec![rec("b1", "D", 0o644, 1), rec("b2", "D", 0o644, 1), rec("k", "K", 0o644, 1)]);
    assert_eq!(
        diff(&base, &target),
        vec![
            IndexDiff::Renamed { from: "a1".to_string(), to: "b1".to_string() },
            IndexDiff::Renamed { from: "a2".to_string(), to: "b2".to_string() },
        ]
    );
}

#[test]
fn diff_leftover_duplicates_stay_deleted_or_created() {
    let base = snap(vec![rec("a1", "D", 0o644, 1), rec("a2", "D", 0o644, 1)]);
    let target = snap(vec![rec("b1", "D", 0o644, 1), rec("c", "E", 0o644, 1)]);
    assert_eq!(
        diff(&base, &target),
        vec![
            IndexDiff::Renamed { from: "a1".to_string(), to: "b1".to_string() },
            IndexDiff::Deleted { file: "a2".to_string() },
            IndexDiff::Created { file: "c".to_string() },
        ]
    );
}

#[test]
fn diff_modified_path_is_not_a_rename_source() {
    let base = snap(vec![rec("a", "X", 0o644, 1)]);
    let target = snap(vec![rec("a", "Y", 0o644, 1), rec("b", "X", 0o644, 1)]);
    assert_eq!(
        diff_files(&base.files, &target.files),
        vec![IndexDiff::Modified { file: "a".to_string() }, IndexDiff::Created { file: "b".to_string() }]
    );
}

#[test]
fn snapshot_rejects_duplicate_path() {
    let r = IndexSnapshot::new(vec![rec("a", "x", 0o644, 1), rec("a", "y", 0o644, 1)], 0, None);
    assert!(matches!(r, Err(fhistory::error::IndexError::DuplicatePath { .. })));
}

#[test]
fn snapshot_aggregates() {
    let s = IndexSnapshot::new(
        vec![rec("a", "xyz", 0o644, 1), rec("b", "hello", 0o644, 1)],
        7,
        Some("first".to_string()),
    )
    .unwrap();
    assert_eq!(s.total_file_count(), 2);
    assert_eq!(s.total_size_bytes(), 8);
    assert_eq!(s.message.as_deref(), Some("first"));
    let mut big = rec("c", "", 0, 0);
    big.size_bytes = u64::MAX;
    let s2 = snap(vec![big.clone(), IndexFileInfo { path: "d".to_string(), ..big }]);
    assert_eq!(s2.total_size_bytes(), 2 * (u64::MAX as u128));
}

#[test]
fn find_path_locates_records() {
    let files = vec![rec("a", "x", 0, 0), rec("b", "y", 0, 0)];
    assert_eq!(find_path(&files, &"b".to_string()), Some(1));
    assert_eq!(find_path(&files, &"z".to_string()), None);
}
