use vstd::prelude::*;
use crate::error::IndexError;

verus! {

/// One file of a snapshot: its path relative to the scan root, its size,
/// modification time (microseconds since the epoch), permission bits and
/// content fingerprint.
#[derive(Clone, Debug)]
pub struct IndexFileInfo {
    pub path: String,
    pub size_bytes: u64,
    pub modified_timestamp_us: i64,
    pub permissions: u32,
    pub checksum: String,
}

/// A point-in-time record of a directory tree: one record per file, the
/// capture time (microseconds since the epoch) and an optional annotation.
#[derive(Clone, Debug)]
pub struct IndexSnapshot {
    pub files: Vec<IndexFileInfo>,
    pub timestamp_us: i64,
    pub message: Option<String>,
}

/// The sum of the sizes of `files`.
pub open spec fn total_size(files: Seq<IndexFileInfo>) -> int
    decreases files.len(),
{
    if files.len() == 0 {
        0
    } else {
        total_size(files.drop_last()) + files.last().size_bytes
    }
}

impl IndexSnapshot {
    /// Paths are unique within the snapshot.
    pub open spec fn wf(&self) -> bool {
        paths_unique(self.files@)
    }

    /// Builds a snapshot from its records, rejecting a repeated path.
    pub fn new(files: Vec<IndexFileInfo>, timestamp_us: i64, message: Option<String>) -> (r: Result<
        IndexSnapshot,
        IndexError,
    >)
        ensures
            match r {
                Ok(s) => paths_unique(files@) && s.wf() && s.files@ == files@ && s.timestamp_us
                    == timestamp_us && s.message == message,
                Err(e) => !paths_unique(files@) && e is DuplicatePath && path_in(files@, e->DuplicatePath_path@),
            },
    {
        let mut i: usize = 0;
        while i < files.len()
            invariant
                i <= files@.len(),
                forall|a: int, b: int|
                    0 <= a < i && 0 <= b < files@.len() && a != b ==> (#[trigger] files@[a]).path@
                        != (#[trigger] files@[b]).path@,
            decreases files@.len() - i,
        {
            let mut j: usize = 0;
            while j < files.len()
                invariant
                    i < files@.len(),
                    j <= files@.len(),
                    forall|a: int, b: int|
                        0 <= a < i && 0 <= b < files@.len() && a != b ==> (#[trigger] files@[a]).path@
                            != (#[trigger] files@[b]).path@,
                    forall|b: int| 0 <= b < j && b != i ==> files@[i as int].path@ != (#[trigger] files@[b]).path@,
                decreases files@.len() - j,
            {
                if j != i && files[i].path == files[j].path {
                    let path = files[i].path.clone();
                    assert(path_in(files@, path@));
                    return Err(IndexError::DuplicatePath { path });
                }
                j = j + 1;
            }
            i = i + 1;
        }
        Ok(IndexSnapshot { files, timestamp_us, message })
    }

    /// The number of files in the snapshot.
    pub fn total_file_count(&self) -> (r: usize)
        ensures
            r == self.files@.len(),
    {
        self.files.len()
    }

    /// The sum of the file sizes in the snapshot.
    pub fn total_size_bytes(&self) -> (r: u128)
        ensures
            r == total_size(self.files@),
    {
        let mut sum: u128 = 0;
        let mut i: usize = 0;
        while i < self.files.len()
            invariant
                i <= self.files@.len(),
                sum == total_size(self.files@.subrange(0, i as int)),
                sum <= i * 0x1_0000_0000_0000_0000,
            decreases self.files@.len() - i,
        {
            assert(self.files@.subrange(0, i + 1).drop_last() == self.files@.subrange(0, i as int));
            sum = sum + self.files[i].size_bytes as u128;
            i = i + 1;
        }
        assert(self.files@.subrange(0, i as int) == self.files@);
        sum
    }
}

/// Classifies the differences from snapshot `base` to snapshot `target`; see
/// `diff_files`.
pub fn diff(base: &IndexSnapshot, target: &IndexSnapshot) -> (r: IndexDiffList)
    requires
        base.wf(),
        target.wf(),
    ensures
        is_diff_of(base.files@, target.files@, r@),
        follows_base_order(base.files@, r@),
        pairs_in_order(base.files@, target.files@, r@),
{
    diff_files(&base.files, &target.files)
}

/// One difference between two snapshots.
#[derive(Clone, Debug, PartialEq, Eq)]
pub enum IndexDiff {
    Created { file: String },
    Deleted { file: String },
    Modified { file: String },
    MetadataModified { file: String },
    Renamed { from: String, to: String },
}

/// The differences between two snapshots, in no particular order.
pub type IndexDiffList = Vec<IndexDiff>;

/// Some record of `files` has path `p`.
pub open spec fn path_in(files: Seq<IndexFileInfo>, p: Seq<char>) -> bool {
    exists|i: int| 0 <= i < files.len() && (#[trigger] files[i]).path@ == p
}

/// No two records of `files` share a path.
pub open spec fn paths_unique(files: Seq<IndexFileInfo>) -> bool {
    forall|i: int, j: int|
        0 <= i < files.len() && 0 <= j < files.len() && i != j ==> (#[trigger] files[i]).path@
            != (#[trigger] files[j]).path@
}

/// The two records hold different content.
pub open spec fn content_differs(a: IndexFileInfo, b: IndexFileInfo) -> bool {
    a.checksum@ != b.checksum@
}

/// The two records differ in permissions or modification time.
pub open spec fn metadata_differs(a: IndexFileInfo, b: IndexFileInfo) -> bool {
    a.permissions != b.permissions || a.modified_timestamp_us != b.modified_timestamp_us
}

/// Finds the record of `files` whose path is `p`.
pub fn find_path(files: &Vec<IndexFileInfo>, p: &String) -> (r: Option<usize>)
    ensures
        match r {
            Some(j) => j < files@.len() && files@[j as int].path@ == p@,
            None => !path_in(files@, p@),
        },
{
    let mut j: usize = 0;
    while j < files.len()
        invariant
            j <= files@.len(),
            forall|k: int| 0 <= k < j ==> (#[trigger] files@[k]).path@ != p@,
        decreases files@.len() - j,
    {
        if files[j].path == *p {
            return Some(j);
        }
        j = j + 1;
    }
    None
}


/// The path an entry speaks of in the base snapshot, if any.
pub open spec fn base_side(e: IndexDiff) -> Option<Seq<char>> {
    match e {
        IndexDiff::Created { .. } => None,
        IndexDiff::Deleted { file } => Some(file@),
        IndexDiff::Modified { file } => Some(file@),
        IndexDiff::MetadataModified { file } => Some(file@),
        IndexDiff::Renamed { from, .. } => Some(from@),
    }
}

/// The path an entry speaks of in the target snapshot, if any.
pub open spec fn target_side(e: IndexDiff) -> Option<Seq<char>> {
    match e {
        IndexDiff::Created { file } => Some(file@),
        IndexDiff::Deleted { .. } => None,
        IndexDiff::Modified { file } => Some(file@),
        IndexDiff::MetadataModified { file } => Some(file@),
        IndexDiff::Renamed { to, .. } => Some(to@),
    }
}

/// The entry describes a real difference between `base` and `target`, of the
/// kind it names.
pub open spec fn entry_sound(base: Seq<IndexFileInfo>, target: Seq<IndexFileInfo>, e: IndexDiff) -> bool {
    match e {
        IndexDiff::Created { file } => path_in(target, file@) && !path_in(base, file@),
        IndexDiff::Deleted { file } => path_in(base, file@) && !path_in(target, file@),
        IndexDiff::Modified { file } => exists|i: int, j: int|
            0 <= i < base.len() && 0 <= j < target.len() && (#[trigger] base[i]).path@ == file@
                && (#[trigger] target[j]).path@ == file@ && content_differs(base[i], target[j]),
        IndexDiff::MetadataModified { file } => exists|i: int, j: int|
            0 <= i < base.len() && 0 <= j < target.len() && (#[trigger] base[i]).path@ == file@
                && (#[trigger] target[j]).path@ == file@ && !content_differs(base[i], target[j])
                && metadata_differs(base[i], target[j]),
        IndexDiff::Renamed { from, to } => exists|i: int, j: int|
            0 <= i < base.len() && 0 <= j < target.len() && (#[trigger] base[i]).path@ == from@
                && (#[trigger] target[j]).path@ == to@ && !path_in(target, from@) && !path_in(
                base,
                to@,
            ) && base[i].checksum@ == target[j].checksum@,
    }
}

/// The base record at index `i` must be reported: its path is gone from the
/// target, or the target's record at that path differs from it.
pub open spec fn needs_base_entry(base: Seq<IndexFileInfo>, target: Seq<IndexFileInfo>, i: int) -> bool {
    !path_in(target, base[i].path@) || exists|j: int|
        0 <= j < target.len() && (#[trigger] target[j]).path@ == base[i].path@ && (content_differs(
            base[i],
            target[j],
        ) || metadata_differs(base[i], target[j]))
}

/// No deleted path and created path of `r` hold the same content: each such
/// pair would have been reported as a rename.
pub open spec fn no_missed_rename(base: Seq<IndexFileInfo>, target: Seq<IndexFileInfo>, r: Seq<IndexDiff>) -> bool {
    forall|k1: int, k2: int, i: int, j: int|
        0 <= k1 < r.len() && 0 <= k2 < r.len() && 0 <= i < base.len() && 0 <= j < target.len()
            && (#[trigger] r[k1]) is Deleted && (#[trigger] r[k2]) is Created
            && (#[trigger] base[i]).path@ == r[k1]->Deleted_file@
            && (#[trigger] target[j]).path@ == r[k2]->Created_file@
            ==> base[i].checksum@ != target[j].checksum@
}

/// Entries that speak of base paths come in the order of the base snapshot.
pub open spec fn follows_base_order(base: Seq<IndexFileInfo>, r: Seq<IndexDiff>) -> bool {
    forall|k1: int, k2: int, i1: int, i2: int|
        0 <= k1 < k2 < r.len() && 0 <= i1 < base.len() && 0 <= i2 < base.len() && base_side(
            #[trigger] r[k1],
        ) == Some((#[trigger] base[i1]).path@) && base_side(#[trigger] r[k2]) == Some(
            (#[trigger] base[i2]).path@,
        ) ==> i1 < i2
}

/// The target path `d` was paired by a rename that comes before entry `k`.
pub open spec fn taken_before(target: Seq<IndexFileInfo>, r: Seq<IndexDiff>, k: int, d: int) -> bool {
    exists|k2: int| 0 <= k2 < k && (#[trigger] r[k2]) is Renamed && r[k2]->Renamed_to@ == target[d].path@
}

/// Renames pair paths in snapshot order: a removed base path takes the first
/// target-only path of equal content that no earlier entry took, and stays
/// `Deleted` only when earlier entries took all of them.
pub open spec fn pairs_in_order(base: Seq<IndexFileInfo>, target: Seq<IndexFileInfo>, r: Seq<IndexDiff>) -> bool {
    &&& forall|k: int, c: int, d: int|
        0 <= k < r.len() && 0 <= c < target.len() && 0 <= d < c && (#[trigger] r[k]) is Renamed
            && (#[trigger] target[c]).path@ == r[k]->Renamed_to@ && !path_in(base, (#[trigger] target[d]).path@)
            && target[d].checksum@ == target[c].checksum@ ==> taken_before(target, r, k, d)
    &&& forall|k: int, i: int, d: int|
        0 <= k < r.len() && 0 <= i < base.len() && 0 <= d < target.len() && (#[trigger] r[k]) is Deleted
            && (#[trigger] base[i]).path@ == r[k]->Deleted_file@ && !path_in(base, (#[trigger] target[d]).path@)
            && target[d].checksum@ == base[i].checksum@ ==> taken_before(target, r, k, d)
}

/// `r` is a classified difference list from `base` to `target`: every entry is
/// a real difference of its kind, every changed, removed or added path is
/// reported, no path is reported twice on either side, and a removed and an
/// added path with equal content are always collapsed into a rename.
pub open spec fn is_diff_of(base: Seq<IndexFileInfo>, target: Seq<IndexFileInfo>, r: Seq<IndexDiff>) -> bool {
    &&& forall|k: int| 0 <= k < r.len() ==> entry_sound(base, target, #[trigger] r[k])
    &&& forall|i: int|
        0 <= i < base.len() && needs_base_entry(base, target, i) ==> exists|k: int|
            0 <= k < r.len() && base_side(#[trigger] r[k]) == Some(base[i].path@)
    &&& forall|j: int|
        0 <= j < target.len() && !path_in(base, (#[trigger] target[j]).path@) ==> exists|k: int|
            0 <= k < r.len() && target_side(#[trigger] r[k]) == Some(target[j].path@)
    &&& forall|k1: int, k2: int|
        0 <= k1 < r.len() && 0 <= k2 < r.len() && k1 != k2 && base_side(#[trigger] r[k1]) is Some
            ==> base_side(r[k1]) != base_side(#[trigger] r[k2])
    &&& forall|k1: int, k2: int|
        0 <= k1 < r.len() && 0 <= k2 < r.len() && k1 != k2 && target_side(#[trigger] r[k1]) is Some
            ==> target_side(r[k1]) != target_side(#[trigger] r[k2])
    &&& no_missed_rename(base, target, r)
}


/// Finds the first target record, in snapshot order, that is not yet paired
/// (`used`), whose path is absent from the base (`target_only`) and whose
/// content is `checksum`.
fn find_rename_candidate(
    target: &Vec<IndexFileInfo>,
    target_only: &Vec<bool>,
    used: &Vec<bool>,
    checksum: &String,
) -> (r: Option<usize>)
    requires
        target_only@.len() == target@.len(),
        used@.len() == target@.len(),
    ensures
        match r {
            Some(c) => c < target@.len() && target_only@[c as int] && !used@[c as int]
                && target@[c as int].checksum@ == checksum@ && forall|d: int|
                0 <= d < c && target_only@[d] && !used@[d] ==> (#[trigger] target@[d]).checksum@ != checksum@,
            None => forall|c: int|
                0 <= c < target@.len() && target_only@[c] && !used@[c] ==> (#[trigger] target@[c]).checksum@
                    != checksum@,
        },
{
    let mut c: usize = 0;
    while c < target.len()
        invariant
            c <= target@.len(),
            target_only@.len() == target@.len(),
            used@.len() == target@.len(),
            forall|d: int|
                0 <= d < c && target_only@[d] && !used@[d] ==> (#[trigger] target@[d]).checksum@
                    != checksum@,
        decreases target@.len() - c,
    {
        if target_only[c] && !used[c] && target[c].checksum == *checksum {
            return Some(c);
        }
        c = c + 1;
    }
    None
}

/// Classifies the differences from the records `base` to the records `target`.
///
/// A path in both is `Modified` when its content differs and
/// `MetadataModified` when only permissions or modification time differ. A
/// base path missing from the target is paired with the first unpaired
/// target-only path of equal content, in snapshot order, and reported as
/// `Renamed`; unpaired ones are `Deleted`. Target-only paths left unpaired are
/// `Created`.
#[verifier::rlimit(80)]
#[verifier::spinoff_prover]
pub fn diff_files(base: &Vec<IndexFileInfo>, target: &Vec<IndexFileInfo>) -> (r: Vec<IndexDiff>)
    requires
        paths_unique(base@),
        paths_unique(target@),
    ensures
        is_diff_of(base@, target@, r@),
        follows_base_order(base@, r@),
        pairs_in_order(base@, target@, r@),
{
    // which target records have a path that the base lacks
    let mut target_only: Vec<bool> = Vec::new();
    let mut c: usize = 0;
    while c < target.len()
        invariant
            c <= target@.len(),
            target_only@.len() == c,
            forall|d: int| 0 <= d < c ==> target_only@[d] == !path_in(base@, (#[trigger] target@[d]).path@),
        decreases target@.len() - c,
    {
        let found = find_path(base, &target[c].path);
        target_only.push(found.is_none());
        c = c + 1;
    }
    // which target-only records a rename has paired
    let mut used: Vec<bool> = Vec::new();
    let mut c: usize = 0;
    while c < target.len()
        invariant
            c <= target@.len(),
            used@.len() == c,
            forall|d: int| 0 <= d < c ==> !used@[d],
        decreases target@.len() - c,
    {
        used.push(false);
        c = c + 1;
    }

    // each base record, in order: modified, metadata-modified, renamed,
    // deleted, or unchanged; `bidx` and `tidx` record the base and target
    // index an entry speaks of, `owner` the rename that paired a target record
    let mut out: Vec<IndexDiff> = Vec::new();
    let ghost mut bidx: Seq<int> = Seq::empty();
    let ghost mut tidx: Seq<int> = Seq::empty();
    let ghost mut owner: Seq<int> = Seq::new(target@.len(), |d: int| 0);
    let mut i: usize = 0;
    while i < base.len()
        invariant
            paths_unique(base@),
            paths_unique(target@),
            i <= base@.len(),
            target_only@.len() == target@.len(),
            used@.len() == target@.len(),
            forall|d: int| 0 <= d < target@.len() ==> target_only@[d] == !path_in(base@, (#[trigger] target@[d]).path@),
            bidx.len() == out@.len(),
            tidx.len() == out@.len(),
            forall|k: int| 0 <= k < out@.len() ==> entry_sound(base@, target@, #[trigger] out@[k]),
            forall|k: int| 0 <= k < out@.len() ==> 0 <= #[trigger] bidx[k] < i
                && base_side(out@[k]) == Some(base@[bidx[k]].path@),
            forall|k1: int, k2: int| 0 <= k1 < k2 < out@.len() ==> #[trigger] bidx[k1] < #[trigger] bidx[k2],
            forall|k: int| 0 <= k < out@.len() && (#[trigger] out@[k]) is Renamed ==>
                0 <= tidx[k] < target@.len() && used@[tidx[k]] && target@[tidx[k]].path@ == out@[k]->Renamed_to@,
            forall|k: int| 0 <= k < out@.len() && !((#[trigger] out@[k]) is Renamed) ==>
                !(out@[k] is Created),
            forall|m: int| 0 <= m < i && needs_base_entry(base@, target@, m) ==> exists|k: int|
                0 <= k < out@.len() && base_side(#[trigger] out@[k]) == Some(base@[m].path@),
            forall|d: int| 0 <= d < target@.len() && #[trigger] used@[d] ==> target_only@[d] && exists|k: int|
                0 <= k < out@.len() && target_side(#[trigger] out@[k]) == Some(target@[d].path@),
            forall|k: int, d: int| 0 <= k < out@.len() && 0 <= d < target@.len() && (#[trigger] out@[k]) is Deleted
                && target_only@[d] && (#[trigger] target@[d]).checksum@ == base@[bidx[k]].checksum@ ==> used@[d]
                && owner[d] < k,
            forall|k1: int, k2: int|
                0 <= k1 < out@.len() && 0 <= k2 < out@.len() && k1 != k2 && target_side(#[trigger] out@[k1]) is Some
                    ==> target_side(out@[k1]) != target_side(#[trigger] out@[k2]),
            owner.len() == target@.len(),
            forall|d: int| 0 <= d < target@.len() && #[trigger] used@[d] ==> 0 <= owner[d] < out@.len()
                && out@[owner[d]] is Renamed && out@[owner[d]]->Renamed_to@ == target@[d].path@,
            forall|k: int, d: int| 0 <= k < out@.len() && (#[trigger] out@[k]) is Renamed && 0 <= d < tidx[k]
                && target_only@[d] && (#[trigger] target@[d]).checksum@ == target@[tidx[k]].checksum@ ==> used@[d]
                && owner[d] < k,
        decreases base@.len() - i,
    {
        let rec = &base[i];
        let ghost old_out = out@;
        let ghost old_used = used@;
        let ghost old_bidx = bidx;
        let ghost old_tidx = tidx;
        let ghost old_owner = owner;
        match find_path(target, &rec.path) {
            Some(j) => {
                if rec.checksum != target[j].checksum {
                    out.push(IndexDiff::Modified { file: rec.path.clone() });
                    proof {
                        bidx = bidx.push(i as int);
                        tidx = tidx.push(0);
                    }
                } else if rec.permissions != target[j].permissions
                    || rec.modified_timestamp_us != target[j].modified_timestamp_us {
                    out.push(IndexDiff::MetadataModified { file: rec.path.clone() });
                    proof {
                        bidx = bidx.push(i as int);
                        tidx = tidx.push(0);
                    }
                }
            },
            None => {
                match find_rename_candidate(target, &target_only, &used, &rec.checksum) {
                    Some(c) => {
                        used.set(c, true);
                        out.push(IndexDiff::Renamed { from: rec.path.clone(), to: target[c].path.clone() });
                        proof {
                            bidx = bidx.push(i as int);
                            tidx = tidx.push(c as int);
                            owner = owner.update(c as int, old_out.len() as int);
                        }
                    },
                    None => {
                        out.push(IndexDiff::Deleted { file: rec.path.clone() });
                        proof {
                            bidx = bidx.push(i as int);
                            tidx = tidx.push(0);
                        }
                    },
                }
            },
        }
        proof {
            assert forall|k: int| 0 <= k < old_out.len() implies out@[k] == old_out[k] by {}
            assert forall|m: int| 0 <= m < i + 1 && needs_base_entry(base@, target@, m) implies exists|k: int|
                0 <= k < out@.len() && base_side(#[trigger] out@[k]) == Some(base@[m].path@) by {
                if m < i {
                    let k = choose|k: int| 0 <= k < old_out.len() && base_side(#[trigger] old_out[k]) == Some(base@[m].path@);
                    assert(out@[k] == old_out[k]);
                } else {
                    assert(old_out.len() < out@.len());
                    assert(base_side(out@[out@.len() - 1]) == Some(base@[m].path@));
                }
            }
            assert forall|d: int| 0 <= d < target@.len() && #[trigger] used@[d] implies 0 <= owner[d] < out@.len()
                && out@[owner[d]] is Renamed && out@[owner[d]]->Renamed_to@ == target@[d].path@ by {
                if old_used[d] {
                    assert(owner[d] == old_owner[d]);
                    assert(out@[owner[d]] == old_out[owner[d]]);
                }
            }
            assert forall|k: int, d: int| 0 <= k < out@.len() && (#[trigger] out@[k]) is Renamed && 0 <= d < tidx[k]
                && target_only@[d] && (#[trigger] target@[d]).checksum@ == target@[tidx[k]].checksum@ implies used@[d]
                && owner[d] < k by {
                if k < old_out.len() {
                    assert(old_out[k] == out@[k]);
                    assert(tidx[k] == old_tidx[k]);
                    assert(old_used[d] && old_owner[d] < k);
                    assert(owner[d] == old_owner[d]);
                } else {
                    assert(old_used[d]);
                    assert(owner[d] == old_owner[d]);
                }
            }
            assert forall|k: int, d: int| 0 <= k < out@.len() && 0 <= d < target@.len() && (#[trigger] out@[k]) is Deleted
                && target_only@[d] && (#[trigger] target@[d]).checksum@ == base@[bidx[k]].checksum@ implies used@[d]
                && owner[d] < k by {
                if k < old_out.len() {
                    assert(old_out[k] == out@[k]);
                    assert(bidx[k] == old_bidx[k]);
                    assert(old_used[d] && old_owner[d] < k);
                    assert(owner[d] == old_owner[d]);
                } else {
                    assert(old_used[d]);
                    assert(owner[d] == old_owner[d]);
                }
            }
            if old_out.len() < out@.len() {
                let n = old_out.len() as int;
                assert forall|k: int| 0 <= k < n && target_side(#[trigger] old_out[k]) is Some implies target_side(
                    old_out[k],
                ) != target_side(out@[n]) by {
                    assert(bidx[k] == old_bidx[k]);
                    assert(base_side(old_out[k]) == Some(base@[bidx[k]].path@));
                    if old_out[k] is Renamed {
                        assert(tidx[k] == old_tidx[k]);
                        assert(old_used[tidx[k]]);
                        if out@[n] is Renamed {
                            assert(tidx[n] != tidx[k]);
                        } else {
                            assert(path_in(base@, base@[i as int].path@));
                        }
                    } else if out@[n] is Renamed {
                        assert(path_in(base@, base@[bidx[k]].path@));
                    } else {
                        assert(bidx[k] < i);
                    }
                }
            }
            assert forall|d: int| 0 <= d < target@.len() && #[trigger] used@[d] implies target_only@[d] && exists|k: int|
                0 <= k < out@.len() && target_side(#[trigger] out@[k]) == Some(target@[d].path@) by {
                if old_used[d] {
                    let k = choose|k: int| 0 <= k < old_out.len() && target_side(#[trigger] old_out[k]) == Some(target@[d].path@);
                    assert(out@[k] == old_out[k]);
                } else {
                    assert(target_side(out@[out@.len() - 1]) == Some(target@[d].path@));
                }
            }
        }
        i = i + 1;
    }

    let ghost n_a = out@.len() as int;
    proof {
        assert forall|k1: int, k2: int|
            0 <= k1 < out@.len() && 0 <= k2 < out@.len() && k1 != k2 && base_side(#[trigger] out@[k1]) is Some
                implies base_side(out@[k1]) != base_side(#[trigger] out@[k2]) by {
            if k1 < k2 {
                assert(bidx[k1] < bidx[k2]);
            } else {
                assert(bidx[k2] < bidx[k1]);
            }
        }
    }
    // target-only records left unpaired, in order, are created
    let mut j: usize = 0;
    while j < target.len()
        invariant
            paths_unique(base@),
            paths_unique(target@),
            j <= target@.len(),
            0 <= n_a <= out@.len(),
            target_only@.len() == target@.len(),
            used@.len() == target@.len(),
            forall|d: int| 0 <= d < target@.len() ==> target_only@[d] == !path_in(base@, (#[trigger] target@[d]).path@),
            bidx.len() == out@.len(),
            tidx.len() == out@.len(),
            forall|k: int| 0 <= k < out@.len() ==> entry_sound(base@, target@, #[trigger] out@[k]),
            forall|k: int| 0 <= k < n_a ==> 0 <= #[trigger] bidx[k] < base@.len()
                && base_side(out@[k]) == Some(base@[bidx[k]].path@) && !(out@[k] is Created),
            forall|k: int| n_a <= k < out@.len() ==> (#[trigger] out@[k]) is Created && 0 <= tidx[k] < j
                && !used@[tidx[k]] && target@[tidx[k]].path@ == out@[k]->Created_file@,
            forall|k1: int, k2: int| n_a <= k1 < k2 < out@.len() ==> #[trigger] tidx[k1] < #[trigger] tidx[k2],
            forall|k: int| 0 <= k < out@.len() && (#[trigger] out@[k]) is Renamed ==>
                0 <= tidx[k] < target@.len() && used@[tidx[k]] && target@[tidx[k]].path@ == out@[k]->Renamed_to@,
            forall|m: int| 0 <= m < base@.len() && needs_base_entry(base@, target@, m) ==> exists|k: int|
                0 <= k < out@.len() && base_side(#[trigger] out@[k]) == Some(base@[m].path@),
            forall|d: int| 0 <= d < target@.len() && #[trigger] used@[d] ==> target_only@[d] && exists|k: int|
                0 <= k < out@.len() && target_side(#[trigger] out@[k]) == Some(target@[d].path@),
            forall|d: int| 0 <= d < j && #[trigger] target_only@[d] ==> exists|k: int|
                0 <= k < out@.len() && target_side(#[trigger] out@[k]) == Some(target@[d].path@),
            forall|k: int, d: int| 0 <= k < out@.len() && 0 <= d < target@.len() && (#[trigger] out@[k]) is Deleted
                && target_only@[d] && (#[trigger] target@[d]).checksum@ == base@[bidx[k]].checksum@ ==> used@[d]
                && owner[d] < k,
            owner.len() == target@.len(),
            forall|d: int| 0 <= d < target@.len() && #[trigger] used@[d] ==> 0 <= owner[d] < n_a
                && out@[owner[d]] is Renamed && out@[owner[d]]->Renamed_to@ == target@[d].path@,
            forall|k: int, d: int| 0 <= k < out@.len() && (#[trigger] out@[k]) is Renamed && 0 <= d < tidx[k]
                && target_only@[d] && (#[trigger] target@[d]).checksum@ == target@[tidx[k]].checksum@ ==> used@[d]
                && owner[d] < k,
            forall|k1: int, k2: int| 0 <= k1 < k2 < n_a ==> #[trigger] bidx[k1] < #[trigger] bidx[k2],
            forall|k1: int, k2: int|
                0 <= k1 < out@.len() && 0 <= k2 < out@.len() && k1 != k2 && base_side(#[trigger] out@[k1]) is Some
                    ==> base_side(out@[k1]) != base_side(#[trigger] out@[k2]),
            forall|k1: int, k2: int|
                0 <= k1 < out@.len() && 0 <= k2 < out@.len() && k1 != k2 && target_side(#[trigger] out@[k1]) is Some
                    ==> target_side(out@[k1]) != target_side(#[trigger] out@[k2]),
        decreases target@.len() - j,
    {
        let ghost old_out = out@;
        let ghost old_tidx = tidx;
        let ghost old_bidx_b = bidx;
        if target_only[j] && !used[j] {
            out.push(IndexDiff::Created { file: target[j].path.clone() });
            proof {
                bidx = bidx.push(0);
                tidx = tidx.push(j as int);
                let n = old_out.len() as int;
                assert(path_in(target@, target@[j as int].path@));
                assert forall|k: int| 0 <= k < n && target_side(#[trigger] old_out[k]) is Some implies target_side(
                    old_out[k],
                ) != target_side(out@[n]) by {
                    assert(tidx[k] == old_tidx[k]);
                    if k < n_a {
                        if old_out[k] is Renamed {
                            assert(tidx[k] != j);
                        } else {
                            assert(path_in(base@, base@[bidx[k]].path@));
                        }
                    } else {
                        assert(tidx[k] < j);
                    }
                }
            }
        }
        proof {
            assert forall|k: int| 0 <= k < old_out.len() implies out@[k] == old_out[k] && tidx[k] == old_tidx[k] by {}
            assert forall|k: int| 0 <= k < n_a implies #[trigger] bidx[k] == old_bidx_b[k] by {}
            assert forall|d: int| 0 <= d < target@.len() && #[trigger] used@[d] implies out@[owner[d]] == old_out[owner[d]] by {}
            assert forall|k: int| n_a <= k < out@.len() implies (#[trigger] out@[k]) is Created && 0 <= tidx[k] < j + 1
                && !used@[tidx[k]] && target@[tidx[k]].path@ == out@[k]->Created_file@ by {
                if k < old_out.len() {
                    assert(old_out[k] is Created);
                    assert(tidx[k] == old_tidx[k]);
                    assert(0 <= tidx[k] < j);
                    assert(target@[tidx[k]].path@ == out@[k]->Created_file@);
                } else {
                    assert(k == old_out.len());
                    assert(tidx[k] == j);
                    assert(out@[k] is Created);
                }
            }
            assert forall|k1: int, k2: int| n_a <= k1 < k2 < out@.len() implies #[trigger] tidx[k1] < #[trigger] tidx[k2] by {
                if k2 < old_out.len() {
                    assert(old_tidx[k1] < old_tidx[k2]);
                } else {
                    assert(old_out[k1] is Created);
                }
            }
            assert forall|m: int| 0 <= m < base@.len() && needs_base_entry(base@, target@, m) implies exists|k: int|
                0 <= k < out@.len() && base_side(#[trigger] out@[k]) == Some(base@[m].path@) by {
                let k = choose|k: int| 0 <= k < old_out.len() && base_side(#[trigger] old_out[k]) == Some(base@[m].path@);
                assert(out@[k] == old_out[k]);
            }
            assert forall|d: int| 0 <= d < target@.len() && #[trigger] used@[d] implies target_only@[d] && exists|k: int|
                0 <= k < out@.len() && target_side(#[trigger] out@[k]) == Some(target@[d].path@) by {
                let k = choose|k: int| 0 <= k < old_out.len() && target_side(#[trigger] old_out[k]) == Some(target@[d].path@);
                assert(out@[k] == old_out[k]);
            }
            assert forall|d: int| 0 <= d < j + 1 && #[trigger] target_only@[d] implies exists|k: int|
                0 <= k < out@.len() && target_side(#[trigger] out@[k]) == Some(target@[d].path@) by {
                if d < j {
                    let k = choose|k: int| 0 <= k < old_out.len() && target_side(#[trigger] old_out[k]) == Some(target@[d].path@);
                    assert(out@[k] == old_out[k]);
                } else if used@[d] {
                } else {
                    assert(target_side(out@[out@.len() - 1]) == Some(target@[d].path@));
                }
            }
        }
        j = j + 1;
    }
    proof {
        assert forall|j: int|
            0 <= j < target@.len() && !path_in(base@, (#[trigger] target@[j]).path@) implies exists|k: int|
                0 <= k < out@.len() && target_side(#[trigger] out@[k]) == Some(target@[j].path@) by {
            assert(target_only@[j]);
        }
        assert forall|k1: int, k2: int, i: int, j: int|
            0 <= k1 < out@.len() && 0 <= k2 < out@.len() && 0 <= i < base@.len() && 0 <= j < target@.len()
                && (#[trigger] out@[k1]) is Deleted && (#[trigger] out@[k2]) is Created
                && (#[trigger] base@[i]).path@ == out@[k1]->Deleted_file@
                && (#[trigger] target@[j]).path@ == out@[k2]->Created_file@
                implies base@[i].checksum@ != target@[j].checksum@ by {
            assert(k1 < n_a);
            if k2 < n_a {
                assert(bidx[k2] >= 0);
            }
            assert(base_side(out@[k1]) == Some(base@[bidx[k1]].path@));
            assert(i == bidx[k1]);
            assert(j == tidx[k2]);
            assert(path_in(base@, base@[i].path@));
        }
        assert forall|k1: int, k2: int, i1: int, i2: int|
            0 <= k1 < k2 < out@.len() && 0 <= i1 < base@.len() && 0 <= i2 < base@.len() && base_side(
                #[trigger] out@[k1],
            ) == Some((#[trigger] base@[i1]).path@) && base_side(#[trigger] out@[k2]) == Some(
                (#[trigger] base@[i2]).path@,
            ) implies i1 < i2 by {
            if k2 >= n_a {
                assert(out@[k2] is Created);
            }
            assert(bidx[k1] >= 0 && bidx[k2] >= 0);
            assert(i1 == bidx[k1]);
            assert(i2 == bidx[k2]);
        }
        assert forall|k: int, c: int, d: int|
            0 <= k < out@.len() && 0 <= c < target@.len() && 0 <= d < c && (#[trigger] out@[k]) is Renamed
                && (#[trigger] target@[c]).path@ == out@[k]->Renamed_to@ && !path_in(base@, (#[trigger] target@[d]).path@)
                && target@[d].checksum@ == target@[c].checksum@ implies taken_before(target@, out@, k, d) by {
            assert(c == tidx[k]);
            assert(target_only@[d]);
            let k2 = owner[d];
            assert(out@[k2] is Renamed);
        }
        assert forall|k: int, i: int, d: int|
            0 <= k < out@.len() && 0 <= i < base@.len() && 0 <= d < target@.len() && (#[trigger] out@[k]) is Deleted
                && (#[trigger] base@[i]).path@ == out@[k]->Deleted_file@ && !path_in(base@, (#[trigger] target@[d]).path@)
                && target@[d].checksum@ == base@[i].checksum@ implies taken_before(target@, out@, k, d) by {
            assert(bidx[k] >= 0);
            assert(base_side(out@[k]) == Some(base@[bidx[k]].path@));
            assert(i == bidx[k]);
            assert(target_only@[d]);
            let k2 = owner[d];
            assert(out@[k2] is Renamed);
        }
    }
    out
}

} // verus!
