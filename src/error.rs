use vstd::prelude::*;

verus! {

/// The failures that the library reports.
#[derive(Clone, Debug, PartialEq, Eq)]
pub enum IndexError {
    /// Two records of one snapshot share a path.
    DuplicatePath { path: String },
    /// A history-directory entry whose name is not a snapshot filename.
    InvalidFilename { name: String },
    /// A persisted snapshot body whose fingerprint differs from the one in its
    /// name.
    IntegrityMismatch { expected: String, actual: String },
}

} // verus!
