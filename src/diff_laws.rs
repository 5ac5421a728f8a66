//! What a classified difference list guarantees, stated over `is_diff_of`,
//! the contract of `snapshot::diff`.
use vstd::prelude::*;
use crate::snapshot::{
    IndexDiff, IndexFileInfo, base_side, content_differs, entry_sound, is_diff_of,
    metadata_differs, needs_base_entry, path_in, paths_unique, target_side,
};

verus! {

/// Comparing a snapshot with itself reports no difference.
pub proof fn lemma_diff_identity(s: Seq<IndexFileInfo>, r: Seq<IndexDiff>)
    requires
        paths_unique(s),
        is_diff_of(s, s, r),
    ensures
        r.len() == 0,
{
    if r.len() > 0 {
        assert(entry_sound(s, s, r[0]));
        match r[0] {
            IndexDiff::Modified { file } => {
                let (i, j) = choose|i: int, j: int|
                    0 <= i < s.len() && 0 <= j < s.len() && (#[trigger] s[i]).path@ == file@
                        && (#[trigger] s[j]).path@ == file@ && content_differs(s[i], s[j]);
                assert(i == j);
            },
            IndexDiff::MetadataModified { file } => {
                let (i, j) = choose|i: int, j: int|
                    0 <= i < s.len() && 0 <= j < s.len() && (#[trigger] s[i]).path@ == file@
                        && (#[trigger] s[j]).path@ == file@ && !content_differs(s[i], s[j])
                        && metadata_differs(s[i], s[j]);
                assert(i == j);
            },
            IndexDiff::Renamed { from, to } => {
                let (i, j) = choose|i: int, j: int|
                    0 <= i < s.len() && 0 <= j < s.len() && (#[trigger] s[i]).path@ == from@
                        && (#[trigger] s[j]).path@ == to@ && !path_in(s, from@) && !path_in(s, to@)
                        && s[i].checksum@ == s[j].checksum@;
            },
            _ => {},
        }
    }
}

/// A path present in `b` but not in `a`, whose content no path removed from
/// `a` holds, is reported as created from `a` to `b` and as deleted from `b`
/// to `a`.
pub proof fn lemma_diff_direction(
    a: Seq<IndexFileInfo>,
    b: Seq<IndexFileInfo>,
    r_ab: Seq<IndexDiff>,
    r_ba: Seq<IndexDiff>,
    p: Seq<char>,
)
    requires
        paths_unique(a),
        paths_unique(b),
        is_diff_of(a, b, r_ab),
        is_diff_of(b, a, r_ba),
        path_in(b, p),
        !path_in(a, p),
        forall|i: int, j: int|
            0 <= i < a.len() && 0 <= j < b.len() && !path_in(b, (#[trigger] a[i]).path@)
                && (#[trigger] b[j]).path@ == p ==> a[i].checksum@ != b[j].checksum@,
    ensures
        exists|k: int| 0 <= k < r_ab.len() && (#[trigger] r_ab[k]) is Created && r_ab[k]->Created_file@ == p,
        exists|k: int| 0 <= k < r_ba.len() && (#[trigger] r_ba[k]) is Deleted && r_ba[k]->Deleted_file@ == p,
{
    let j = choose|j: int| 0 <= j < b.len() && (#[trigger] b[j]).path@ == p;
    let k = choose|k: int| 0 <= k < r_ab.len() && target_side(#[trigger] r_ab[k]) == Some(b[j].path@);
    assert(entry_sound(a, b, r_ab[k]));
    match r_ab[k] {
        IndexDiff::Modified { file } => {
            let (i, j2) = choose|i: int, j2: int|
                0 <= i < a.len() && 0 <= j2 < b.len() && (#[trigger] a[i]).path@ == file@
                    && (#[trigger] b[j2]).path@ == file@ && content_differs(a[i], b[j2]);
        },
        IndexDiff::MetadataModified { file } => {
            let (i, j2) = choose|i: int, j2: int|
                0 <= i < a.len() && 0 <= j2 < b.len() && (#[trigger] a[i]).path@ == file@
                    && (#[trigger] b[j2]).path@ == file@ && !content_differs(a[i], b[j2])
                    && metadata_differs(a[i], b[j2]);
        },
        _ => {},
    }
    assert(needs_base_entry(b, a, j));
    let k2 = choose|k2: int| 0 <= k2 < r_ba.len() && base_side(#[trigger] r_ba[k2]) == Some(b[j].path@);
    assert(entry_sound(b, a, r_ba[k2]));
    match r_ba[k2] {
        IndexDiff::Modified { file } => {
            let (i, j2) = choose|i: int, j2: int|
                0 <= i < b.len() && 0 <= j2 < a.len() && (#[trigger] b[i]).path@ == file@
                    && (#[trigger] a[j2]).path@ == file@ && content_differs(b[i], a[j2]);
        },
        IndexDiff::MetadataModified { file } => {
            let (i, j2) = choose|i: int, j2: int|
                0 <= i < b.len() && 0 <= j2 < a.len() && (#[trigger] b[i]).path@ == file@
                    && (#[trigger] a[j2]).path@ == file@ && !content_differs(b[i], a[j2])
                    && metadata_differs(b[i], a[j2]);
        },
        IndexDiff::Renamed { from, to } => {
            let (i, j2) = choose|i: int, j2: int|
                0 <= i < b.len() && 0 <= j2 < a.len() && (#[trigger] b[i]).path@ == from@
                    && (#[trigger] a[j2]).path@ == to@ && !path_in(a, from@) && !path_in(b, to@)
                    && b[i].checksum@ == a[j2].checksum@;
            assert(i == j);
        },
        _ => {},
    }
}


/// A file removed from the base and a file of equal content that appears
/// under another path in the target are reported as exactly one rename.
pub proof fn lemma_rename_collapsing(base: Seq<IndexFileInfo>, target: Seq<IndexFileInfo>, r: Seq<IndexDiff>)
    requires
        base.len() == 1,
        target.len() == 1,
        base[0].path@ != target[0].path@,
        base[0].checksum@ == target[0].checksum@,
        is_diff_of(base, target, r),
    ensures
        r.len() == 1,
        r[0] is Renamed,
        r[0]->Renamed_from@ == base[0].path@,
        r[0]->Renamed_to@ == target[0].path@,
{
    assert forall|k: int| 0 <= k < r.len() implies (#[trigger] r[k]) is Renamed || r[k] is Deleted || r[k] is Created by {
        assert(entry_sound(base, target, r[k]));
    }
    assert(needs_base_entry(base, target, 0));
    let kb = choose|k: int| 0 <= k < r.len() && base_side(#[trigger] r[k]) == Some(base[0].path@);
    let kt = choose|k: int| 0 <= k < r.len() && target_side(#[trigger] r[k]) == Some(target[0].path@);
    if r[kb] is Deleted {
        assert(r[kt] is Created);
        assert(false);
    }
    assert(entry_sound(base, target, r[kb]));
    assert(r[kb]->Renamed_to@ == target[0].path@);
    if r.len() > 1 {
        let k: int = if kb == 0 { 1 } else { 0 };
        assert(entry_sound(base, target, r[k]));
        if r[k] is Created {
            assert(target_side(r[k]) == target_side(r[kb]));
        } else {
            assert(base_side(r[k]) == base_side(r[kb]));
        }
    }
}

/// A file whose content stays and whose permissions change is reported as
/// exactly one metadata-only modification.
pub proof fn lemma_metadata_only_change(base: Seq<IndexFileInfo>, target: Seq<IndexFileInfo>, r: Seq<IndexDiff>)
    requires
        base.len() == 1,
        target.len() == 1,
        base[0].path@ == target[0].path@,
        base[0].checksum@ == target[0].checksum@,
        base[0].permissions != target[0].permissions,
        is_diff_of(base, target, r),
    ensures
        r.len() == 1,
        r[0] is MetadataModified,
        r[0]->MetadataModified_file@ == base[0].path@,
{
    assert(path_in(base, base[0].path@));
    assert(path_in(target, base[0].path@));
    assert forall|k: int| 0 <= k < r.len() implies (#[trigger] r[k]) is MetadataModified && base_side(r[k]) == Some(base[0].path@) by {
        assert(entry_sound(base, target, r[k]));
    }
    assert(needs_base_entry(base, target, 0));
    if r.len() > 1 {
        assert(base_side(r[0]) == base_side(r[1]));
    }
}

/// A file whose content and permissions both change is reported as exactly
/// one content modification, with no separate metadata entry.
pub proof fn lemma_content_change_dominance(base: Seq<IndexFileInfo>, target: Seq<IndexFileInfo>, r: Seq<IndexDiff>)
    requires
        base.len() == 1,
        target.len() == 1,
        base[0].path@ == target[0].path@,
        base[0].checksum@ != target[0].checksum@,
        base[0].permissions != target[0].permissions,
        is_diff_of(base, target, r),
    ensures
        r.len() == 1,
        r[0] is Modified,
        r[0]->Modified_file@ == base[0].path@,
{
    assert(path_in(base, base[0].path@));
    assert(path_in(target, base[0].path@));
    assert forall|k: int| 0 <= k < r.len() implies (#[trigger] r[k]) is Modified && base_side(r[k]) == Some(base[0].path@) by {
        assert(entry_sound(base, target, r[k]));
    }
    assert(needs_base_entry(base, target, 0));
    if r.len() > 1 {
        assert(base_side(r[0]) == base_side(r[1]));
    }
}

} // verus!
