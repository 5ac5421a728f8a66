//! The history directory: an append-only set of persisted snapshots, each
//! named by its capture date and the fingerprint of its serialized body, and
//! kept in order of capture time.
use vstd::prelude::*;
use crate::checksum::{fingerprint, sha256_hex_of};
use crate::error::IndexError;
use crate::filename::{
    chars_of, format_index_filename, index_filename, is_index_filename, split_index_filename,
    valid_date, valid_hash,
};
use crate::timestamp::{date_key, date_key_of};
use vstd::string::*;
use vstd::multiset::Multiset;

verus! {

/// A persisted snapshot, known by its name: its capture date as written in
/// the name, the fingerprint of its body, and the instant the date denotes.
#[derive(Clone, Debug)]
pub struct IndexReference {
    pub date: String,
    pub hash: String,
    pub timestamp_us: i64,
}

/// The persisted snapshots of a history directory, oldest first.
pub struct IndexList {
    index_dir: String,
    index_files: Vec<IndexReference>,
}

/// The body of a persisted snapshot, framed by the bytes it is stored as.
pub struct IndexData {
    pub bytes: Vec<u8>,
}

impl IndexReference {
    /// The name is well formed and the timestamp is the instant of the date.
    pub open spec fn wf(&self) -> bool {
        valid_date(self.date@) && valid_hash(self.hash@) && self.timestamp_us == date_key(self.date@)
    }

    /// The entry name of this snapshot in the history directory.
    pub open spec fn name(&self) -> Seq<char> {
        index_filename(self.date@, self.hash@)
    }

    /// Reads a history-directory entry name.
    pub fn from_filename(name: &str) -> (r: Result<IndexReference, IndexError>)
        ensures
            match r {
                Ok(x) => x.wf() && x.name() == name@,
                Err(e) => !is_index_filename(name@) && e is InvalidFilename && e->InvalidFilename_name@
                    == name@,
            },
    {
        match split_index_filename(name) {
            Some((date, hash)) => {
                let chars = chars_of(date.as_str());
                let timestamp_us = date_key_of(&chars);
                Ok(IndexReference { date, hash, timestamp_us })
            },
            None => Err(IndexError::InvalidFilename { name: name.to_owned() }),
        }
    }

    /// The reference under which a snapshot body captured at `date` is
    /// persisted: its hash is the fingerprint of the body. `None` when `date`
    /// is not a valid snapshot date.
    pub fn for_body(date: &str, body: &IndexData) -> (r: Option<IndexReference>)
        ensures
            match r {
                Some(x) => x.wf() && x.date@ == date@ && x.hash@ == sha256_hex_of(body.bytes@),
                None => !valid_date(date@),
            },
    {
        let hash = fingerprint(body.bytes.as_slice());
        let name = format_index_filename(date, hash.as_str());
        match IndexReference::from_filename(name.as_str()) {
            Ok(x) => {
                proof {
                    crate::filename::lemma_filename_split_unique(x.date@, x.hash@, date@, hash@);
                }
                Some(x)
            },
            Err(_) => None,
        }
    }

    /// The entry name of this snapshot in the history directory.
    pub fn filename(&self) -> (r: String)
        ensures
            r@ == self.name(),
    {
        format_index_filename(self.date.as_str(), self.hash.as_str())
    }

    /// Checks a loaded body against the fingerprint in the name: `Ok` exactly
    /// when the body's fingerprint is the recorded hash, an integrity failure
    /// otherwise.
    pub fn verify_body(&self, body: &IndexData) -> (r: Result<(), IndexError>)
        ensures
            r is Ok <==> sha256_hex_of(body.bytes@) == self.hash@,
            r matches Err(e) ==> e is IntegrityMismatch && e->IntegrityMismatch_expected@ == self.hash@
                && e->IntegrityMismatch_actual@ == sha256_hex_of(body.bytes@),
    {
        let actual = fingerprint(body.bytes.as_slice());
        if actual == self.hash {
            Ok(())
        } else {
            Err(IndexError::IntegrityMismatch { expected: self.hash.clone(), actual })
        }
    }

    fn duplicate(&self) -> (r: IndexReference)
        ensures
            r.date@ == self.date@,
            r.hash@ == self.hash@,
            r.timestamp_us == self.timestamp_us,
    {
        IndexReference { date: self.date.clone(), hash: self.hash.clone(), timestamp_us: self.timestamp_us }
    }
}


/// A body persisted under the reference made for it passes the integrity
/// check when it is loaded back unchanged: the hash in the name is the
/// fingerprint that loading recomputes.
pub proof fn lemma_persisted_body_verifies(x: IndexReference, body: Seq<u8>)
    requires
        x.wf(),
        x.hash@ == sha256_hex_of(body),
    ensures
        sha256_hex_of(body) == x.hash@,
        is_index_filename(x.name()),
{
    assert(valid_date(x.date@) && valid_hash(x.hash@) && x.name() == index_filename(x.date@, x.hash@));
}

/// The references are in ascending order of time.
pub open spec fn sorted_by_time(s: Seq<IndexReference>) -> bool {
    forall|i: int, j: int| 0 <= i < j < s.len() ==> (#[trigger] s[i]).timestamp_us <= (#[trigger] s[j]).timestamp_us
}

pub open spec fn ref_name(r: IndexReference) -> Seq<char> {
    r.name()
}

/// The strings' views, counted with repetition.
pub open spec fn strings_of(s: Seq<String>) -> Multiset<Seq<char>> {
    s.map_values(|x: String| x@).to_multiset()
}

proof fn lemma_push_to_multiset<A>(s: Seq<A>, a: A)
    ensures
        s.push(a).to_multiset() == s.to_multiset().insert(a),
{
    assert(s.insert(s.len() as int, a) =~= s.push(a));
    vstd::seq_lib::to_multiset_insert(s, s.len() as int, a);
}

/// The entry names of the references, counted with repetition.
pub open spec fn names_of(s: Seq<IndexReference>) -> Multiset<Seq<char>> {
    s.map_values(|r: IndexReference| ref_name(r)).to_multiset()
}

/// The directory to hold the history: `index_dir` itself when it is absolute,
/// else `index_dir` under `data_dir`.
pub open spec fn joined_dir(data_dir: Seq<char>, index_dir: Seq<char>) -> Seq<char> {
    if index_dir.len() > 0 && index_dir[0] == '/' {
        index_dir
    } else if data_dir.len() == 0 {
        index_dir
    } else if data_dir.last() == '/' {
        data_dir + index_dir
    } else {
        data_dir + seq!['/'] + index_dir
    }
}

/// The history directory for a data directory and a possibly relative
/// history directory.
pub fn resolve_index_dir(data_dir: &str, index_dir: &str) -> (r: String)
    ensures
        r@ == joined_dir(data_dir@, index_dir@),
{
    let idx_len = index_dir.unicode_len();
    let data_len = data_dir.unicode_len();
    if idx_len > 0 && index_dir.get_char(0) == '/' {
        return index_dir.to_owned();
    }
    if data_len == 0 {
        return index_dir.to_owned();
    }
    let mut r = data_dir.to_owned();
    if data_dir.get_char(data_len - 1) != '/' {
        r.append("/");
    }
    r.append(index_dir);
    proof {
        reveal_strlit("/");
        assert(r@ =~= joined_dir(data_dir@, index_dir@));
    }
    r
}

impl View for IndexList {
    type V = Seq<IndexReference>;

    closed spec fn view(&self) -> Seq<IndexReference> {
        self.index_files@
    }
}

impl IndexList {
    /// Every reference is well formed, and they are in ascending order of time.
    pub open spec fn wf(&self) -> bool {
        sorted_by_time(self@) && forall|i: int| 0 <= i < self@.len() ==> (#[trigger] self@[i]).wf()
    }

    /// An empty history kept in `index_dir`.
    pub fn new(index_dir: String) -> (r: IndexList)
        ensures
            r.wf(),
            r@.len() == 0,
            r.index_dir_view() == index_dir@,
    {
        IndexList { index_dir, index_files: Vec::new() }
    }

    pub closed spec fn index_dir_view(&self) -> Seq<char> {
        self.index_dir@
    }

    /// The directory that holds the history.
    pub fn index_dir(&self) -> (r: &String)
        ensures
            r@ == self.index_dir_view(),
    {
        &self.index_dir
    }

    /// Reads the entry names of a history directory. Every name must be a
    /// snapshot filename, else the first one that is not is reported; the
    /// references come out ordered by time, whatever the order of `names`.
    pub fn from_filenames(index_dir: String, names: &Vec<String>) -> (r: Result<IndexList, IndexError>)
        ensures
            match r {
                Ok(l) => l.wf() && l.index_dir_view() == index_dir@ && names_of(l@)
                    == strings_of(names@)
                    && forall|i: int| 0 <= i < names@.len() ==> is_index_filename(#[trigger] names@[i]@),
                Err(e) => e is InvalidFilename && exists|i: int|
                    0 <= i < names@.len() && (#[trigger] names@[i])@ == e->InvalidFilename_name@
                        && !is_index_filename(names@[i]@),
            },
    {
        let mut l = IndexList::new(index_dir);
        proof {
            assert(l@.map_values(|r: IndexReference| ref_name(r)) =~= Seq::<Seq<char>>::empty());
            assert(names@.subrange(0, 0).map_values(|x: String| x@) =~= Seq::<Seq<char>>::empty());
        }
        let mut i: usize = 0;
        while i < names.len()
            invariant
                i <= names@.len(),
                l.wf(),
                l.index_dir_view() == index_dir@,
                names_of(l@) == strings_of(names@.subrange(0, i as int)),
                forall|k: int| 0 <= k < i ==> is_index_filename(#[trigger] names@[k]@),
            decreases names@.len() - i,
        {
            let x = match IndexReference::from_filename(names[i].as_str()) {
                Ok(x) => x,
                Err(e) => {
                    return Err(e);
                },
            };
            proof {
                assert(is_index_filename(x.name())) by {
                    assert(valid_date(x.date@) && valid_hash(x.hash@) && x.name() == index_filename(x.date@, x.hash@));
                }
                assert(names@.subrange(0, i + 1).map_values(|x: String| x@) =~= names@.subrange(0, i as int).map_values(
                    |x: String| x@,
                ).push(names@[i as int]@));
                lemma_push_to_multiset(names@.subrange(0, i as int).map_values(|x: String| x@), names@[i as int]@);
            }
            l.insert_sorted(x);
            i = i + 1;
        }
        assert(names@.subrange(0, names@.len() as int) =~= names@);
        Ok(l)
    }

    /// Puts `x` after every reference not later than it.
    fn insert_sorted(&mut self, x: IndexReference)
        requires
            old(self).wf(),
            x.wf(),
        ensures
            final(self).wf(),
            final(self).index_dir_view() == old(self).index_dir_view(),
            names_of(final(self)@) == names_of(old(self)@).insert(x.name()),
    {
        let n = self.index_files.len();
        let mut p = n;
        while p > 0 && self.index_files[p - 1].timestamp_us > x.timestamp_us
            invariant
                p <= n,
                n == self.index_files@.len(),
                forall|k: int| p <= k < n ==> (#[trigger] self.index_files@[k]).timestamp_us > x.timestamp_us,
            decreases p,
        {
            p = p - 1;
        }
        let ghost before = self.index_files@;
        self.index_files.insert(p, x);
        proof {
            let f = |r: IndexReference| ref_name(r);
            assert(self.index_files@.map_values(f) =~= before.map_values(f).insert(p as int, ref_name(x)));
            vstd::seq_lib::to_multiset_insert(before.map_values(f), p as int, ref_name(x));
            assert forall|i: int, j: int| 0 <= i < j < self.index_files@.len() implies (#[trigger] self.index_files@[i]).timestamp_us
                <= (#[trigger] self.index_files@[j]).timestamp_us by {
                if j < p {
                } else if j == p {
                    if p > 0 {
                        assert(before[p - 1].timestamp_us <= x.timestamp_us);
                        assert(before[i].timestamp_us <= before[p - 1].timestamp_us);
                    }
                } else if i < p {
                } else if i == p {
                } else {
                }
            }
        }
    }

    /// Records a newly persisted snapshot. A reference whose name is already
    /// present names the same content at the same date: then nothing changes
    /// and the result is `false`.
    pub fn add(&mut self, x: IndexReference) -> (added: bool)
        requires
            old(self).wf(),
            x.wf(),
        ensures
            final(self).wf(),
            final(self).index_dir_view() == old(self).index_dir_view(),
            added == !names_of(old(self)@).contains(x.name()),
            added ==> names_of(final(self)@) == names_of(old(self)@).insert(x.name()),
            !added ==> final(self)@ == old(self)@,
    {
        let mut i: usize = 0;
        while i < self.index_files.len()
            invariant
                self.wf(),
                x.wf(),
                i <= self.index_files@.len(),
                forall|k: int| 0 <= k < i ==> (#[trigger] self.index_files@[k]).name() != x.name(),
            decreases self.index_files@.len() - i,
        {
            assert(self@[i as int].wf());
            if self.index_files[i].date == x.date && self.index_files[i].hash == x.hash {
                proof {
                    crate::filename::lemma_filename_split_unique(self.index_files@[i as int].date@, self.index_files@[i as int].hash@, x.date@, x.hash@);
                    let f = |r: IndexReference| ref_name(r);
                    assert(self.index_files@.map_values(f)[i as int] == x.name());
                    vstd::seq_lib::to_multiset_contains(self.index_files@.map_values(f), x.name());
                }
                return false;
            }
            proof {
                if self.index_files@[i as int].name() == x.name() {
                    crate::filename::lemma_filename_split_unique(self.index_files@[i as int].date@, self.index_files@[i as int].hash@, x.date@, x.hash@);
                }
            }
            i = i + 1;
        }
        proof {
            let f = |r: IndexReference| ref_name(r);
            vstd::seq_lib::to_multiset_contains(self.index_files@.map_values(f), x.name());
            if self.index_files@.map_values(f).contains(x.name()) {
                let k = choose|k: int| 0 <= k < self.index_files@.len() && self.index_files@.map_values(f)[k] == x.name();
                assert(self.index_files@[k].name() != x.name());
            }
        }
        self.insert_sorted(x);
        true
    }

    /// The most recent snapshot: the one with the greatest timestamp, `None`
    /// for an empty history.
    pub fn latest(&self) -> (r: Option<IndexReference>)
        requires
            self.wf(),
        ensures
            r is None <==> self@.len() == 0,
            r matches Some(x) ==> x.date@ == self@.last().date@ && x.hash@ == self@.last().hash@
                && x.timestamp_us == self@.last().timestamp_us && x.wf()
                && forall|i: int| 0 <= i < self@.len() ==> (#[trigger] self@[i]).timestamp_us <= x.timestamp_us,
    {
        let n = self.index_files.len();
        if n == 0 {
            None
        } else {
            let x = self.index_files[n - 1].duplicate();
            assert(self@[n - 1].wf());
            Some(x)
        }
    }

    /// The persisted snapshots, oldest first.
    pub fn list(&self) -> (r: &Vec<IndexReference>)
        requires
            self.wf(),
        ensures
            r@ == self@,
            sorted_by_time(r@),
    {
        &self.index_files
    }
}

} // verus!
