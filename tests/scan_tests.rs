use fhistory::checksum::fingerprint;
use fhistory::scan::{relative_path, scan_record, ScanProgress};

#[test]
fn progress_counts_files_and_bytes() {
    let mut p = ScanProgress::new(0, 0);
    assert!(!p.has_totals());
    p.record_file(10);
    p.record_file(5);
    assert_eq!((p.files_scanned, p.bytes_scanned), (2, 15));
    let q = ScanProgress::new(3, 100);
    assert!(q.has_totals());
}

#[test]
fn progress_saturates() {
    let mut p = ScanProgress::new(1, 1);
    p.record_file(u64::MAX);
    p.record_file(7);
    assert_eq!(p.bytes_scanned, u64::MAX);
    assert_eq!(p.files_scanned, 2);
}

#[test]
fn record_holds_content_fingerprint() {
    let r = scan_record("dir/f.txt".to_string(), 3, 42, 0o640, b"abc");
    assert_eq!(r.path, "dir/f.txt");
    assert_eq!(r.size_bytes, 3);
    assert_eq!(r.modified_timestamp_us, 42);
    assert_eq!(r.permissions, 0o640);
    assert_eq!(r.checksum, fingerprint(b"abc"));
    assert_ne!(r.checksum, "abc");
}

#[test]
fn relative_paths_under_root() {
    assert_eq!(relative_path(".", "./a/b.txt"), Some("a/b.txt".to_string()));
    assert_eq!(relative_path("/data/", "/data/x"), Some("x".to_string()));
    assert_eq!(relative_path("/data", "/data/x/y"), Some("x/y".to_string()));
    assert_eq!(relative_path("/data", "/database/x"), None);
    assert_eq!(relative_path("/data", "/data"), None);
    assert_eq!(relative_path("/data", "/data/"), None);
    assert_eq!(relative_path("/data", "/other/x"), None);
}
