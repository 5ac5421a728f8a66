//! Snapshot history and diff engine of a file-integrity monitor.
//!
//! `checksum` fingerprints bytes; `scan` builds per-file records and counts
//! progress; `snapshot` holds the records of one point-in-time scan and
//! classifies the differences between two of them, and `diff_laws` states
//! what those classifications guarantee; `filename` and `timestamp` read and
//! write the names of persisted snapshots; `index` models the append-only,
//! content-addressed history directory.
pub mod checksum;
pub mod diff_laws;
pub mod error;
pub mod filename;
pub mod index;
pub mod scan;
pub mod snapshot;
pub mod timestamp;
