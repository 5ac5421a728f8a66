//! The bookkeeping of a directory scan: one record per regular file, and
//! progress counters that never decrease.
use vstd::prelude::*;
use crate::checksum::{fingerprint, sha256_hex_of};
use crate::snapshot::IndexFileInfo;
use crate::filename::chars_of;
use vstd::string::*;

verus! {

/// How far a scan has come, and the totals a pre-pass found (zero when there
/// was none).
#[derive(Clone, Copy, Debug, PartialEq, Eq)]
pub struct ScanProgress {
    pub files_scanned: u64,
    pub bytes_scanned: u64,
    pub files_total: u64,
    pub bytes_total: u64,
}

pub open spec fn saturating_sum(a: int, b: int) -> int {
    if a + b > u64::MAX {
        u64::MAX as int
    } else {
        a + b
    }
}

impl ScanProgress {
    /// Nothing scanned yet, against the given totals.
    pub fn new(files_total: u64, bytes_total: u64) -> (r: ScanProgress)
        ensures
            r.files_scanned == 0,
            r.bytes_scanned == 0,
            r.files_total == files_total,
            r.bytes_total == bytes_total,
    {
        ScanProgress { files_scanned: 0, bytes_scanned: 0, files_total, bytes_total }
    }

    /// Counts one more file of `size` bytes; the counters saturate instead of
    /// wrapping, so they never decrease.
    pub fn record_file(&mut self, size: u64)
        ensures
            final(self).files_scanned == saturating_sum(old(self).files_scanned as int, 1),
            final(self).bytes_scanned == saturating_sum(old(self).bytes_scanned as int, size as int),
            final(self).files_total == old(self).files_total,
            final(self).bytes_total == old(self).bytes_total,
            final(self).files_scanned >= old(self).files_scanned,
            final(self).bytes_scanned >= old(self).bytes_scanned,
    {
        self.files_scanned = self.files_scanned.saturating_add(1);
        self.bytes_scanned = self.bytes_scanned.saturating_add(size);
    }

    /// Whether a pre-pass gave totals, so that progress can be shown as a
    /// share of them rather than as absolute counts.
    pub fn has_totals(&self) -> (r: bool)
        ensures
            r == (self.files_total > 0 && self.bytes_total > 0),
    {
        self.files_total > 0 && self.bytes_total > 0
    }
}

/// The record of one scanned file: its metadata as given, and the
/// fingerprint of its content.
pub fn scan_record(path: String, size_bytes: u64, modified_timestamp_us: i64, permissions: u32, content: &[u8]) -> (r: IndexFileInfo)
    ensures
        r.path@ == path@,
        r.size_bytes == size_bytes,
        r.modified_timestamp_us == modified_timestamp_us,
        r.permissions == permissions,
        r.checksum@ == sha256_hex_of(content@),
{
    let checksum = fingerprint(content);
    IndexFileInfo { path, size_bytes, modified_timestamp_us, permissions, checksum }
}


/// `root` followed by exactly one `/`.
pub open spec fn dir_prefix(root: Seq<char>) -> Seq<char> {
    if root.len() > 0 && root.last() == '/' {
        root
    } else {
        root + seq!['/']
    }
}

/// The path of `full` relative to `root`, when `full` lies under it.
pub open spec fn relative_of(root: Seq<char>, full: Seq<char>) -> Option<Seq<char>> {
    let p = dir_prefix(root);
    if p.len() < full.len() && full.subrange(0, p.len() as int) == p {
        Some(full.subrange(p.len() as int, full.len() as int))
    } else {
        None
    }
}

/// The path of a scanned file relative to the scan root, slash-separated;
/// `None` when `full` does not lie under `root`.
pub fn relative_path(root: &str, full: &str) -> (r: Option<String>)
    ensures
        match r {
            Some(s) => relative_of(root@, full@) == Some(s@),
            None => relative_of(root@, full@) is None,
        },
{
    let rc = chars_of(root);
    let fc = chars_of(full);
    let ghost p = dir_prefix(root@);
    if fc.len() <= rc.len() {
        return None;
    }
    let slash: usize = if rc.len() > 0 && rc[rc.len() - 1] == '/' { 0 } else { 1 };
    let plen = rc.len() + slash;
    assert(plen == p.len());
    assert(p.subrange(0, rc@.len() as int) =~= rc@);
    if fc.len() <= plen {
        return None;
    }
    let mut i: usize = 0;
    while i < rc.len()
        invariant
            i <= rc@.len(),
            rc@ == root@,
            fc@ == full@,
            plen < fc@.len(),
            plen == p.len(),
            rc@.len() <= plen,
            p.subrange(0, rc@.len() as int) == rc@,
            forall|k: int| 0 <= k < i ==> fc@[k] == rc@[k],
        decreases rc@.len() - i,
    {
        if fc[i] != rc[i] {
            assert(full@.subrange(0, p.len() as int)[i as int] != p[i as int]);
            return None;
        }
        i = i + 1;
    }
    if slash == 1 && fc[rc.len()] != '/' {
        assert(full@.subrange(0, p.len() as int)[rc@.len() as int] != p[rc@.len() as int]);
        return None;
    }
    assert(full@.subrange(0, p.len() as int) =~= p);
    Some(full.substring_char(plen, fc.len()).to_owned())
}

} // verus!
