//! The error taxonomy of a run.
//!
//! Every failure carries the path of the offending entry; the run is
//! fail-fast, so at most one such error is ever reported.

use vstd::prelude::*;

verus! {

/// What went wrong with one filesystem entry.
#[derive(Clone, Copy, PartialEq, Eq, Structural, Debug)]
pub enum ErrorKind {
    /// The entry source failed to read a directory entry.
    ReadEntry,
    /// The entry's metadata could not be read.
    Metadata,
    /// The platform reports no modification time for the entry.
    MtimeUnavailable,
    /// The modification time predates the reference epoch.
    PreEpoch,
    /// The nanosecond count does not fit in 64 unsigned bits.
    Overflow,
}

/// A run-fatal error: what happened, and to which path.
#[derive(Debug)]
pub struct RunError {
    pub kind: ErrorKind,
    pub path: String,
}

impl RunError {
    pub fn new(kind: ErrorKind, path: String) -> (e: RunError)
        ensures
            e.kind == kind,
            e.path == path,
    {
        RunError { kind, path }
    }
}

} // verus!
