//! The concurrent max-reducer and its cancellation signal.
//!
//! Each worker owns a [`MtimeVisitor`] with an unsynchronized local
//! maximum; every successfully visited entry updates only that local
//! value. At retirement the worker folds its local maximum into the
//! one [`SharedMax`] cell under a single point of synchronization.
//! An [`ErrorSignal`] records the first unrecoverable error and is the
//! request for cooperative cancellation: a worker that hits an error
//! answers [`Step::Quit`], asking the entry source to stop dispatching.
//!
//! The cells themselves are plain values here; the surrounding
//! application owns each behind its own lock and hands workers
//! exclusive access for the O(1) fold or record step.

use vstd::prelude::*;
use crate::errors::{ErrorKind, RunError};
use crate::timestamp::{RawMtime, spec_mtime_nanos, mtime_nanos};

verus! {

/// The larger of two timestamps.
pub open spec fn max_u64(a: u64, b: u64) -> u64 {
    if a >= b {
        a
    } else {
        b
    }
}

/// The global maximum timestamp observed across all retired workers.
/// Starts at the epoch (zero) and only ever grows.
pub struct SharedMax {
    pub max: u64,
}

impl SharedMax {
    /// A fresh cell, holding the epoch.
    pub fn new() -> (s: SharedMax)
        ensures
            s.max == 0,
    {
        SharedMax { max: 0 }
    }

    /// Fold one worker-local maximum in. The cell never decreases,
    /// so the shared maximum is monotone at every fold point, and
    /// after the fold it bounds the folded value.
    pub fn fold(&mut self, local: u64)
        ensures
            final(self).max == max_u64(old(self).max, local),
            final(self).max >= old(self).max,
            final(self).max >= local,
    {
        if local > self.max {
            self.max = local;
        }
    }
}

/// The first-error-wins cell shared by all workers. Once set it is
/// never reset, and later errors are discarded.
pub struct ErrorSignal {
    pub err: Option<RunError>,
}

impl ErrorSignal {
    /// A fresh signal: no error yet.
    pub fn new() -> (s: ErrorSignal)
        ensures
            s.err is None,
    {
        ErrorSignal { err: None }
    }

    /// Whether some worker has already failed; a set signal is the
    /// standing request to stop dispatching work.
    pub fn is_set(&self) -> (r: bool)
        ensures
            r == (self.err is Some),
    {
        self.err.is_some()
    }

    /// Record an error, first one wins: a set signal is left as it is.
    pub fn record(&mut self, e: RunError)
        ensures
            old(self).err is None ==> final(self).err == Some(e),
            old(self).err is Some ==> final(self).err == old(self).err,
    {
        if self.err.is_none() {
            self.err = Some(e);
        }
    }
}

/// Whether the visitor keeps walking or asks the entry source to stop
/// dispatching work to every worker.
#[derive(Clone, Copy, PartialEq, Eq, Structural, Debug)]
pub enum Step {
    Continue,
    Quit,
}

/// One filesystem entry as the entry source delivers it to a worker,
/// reduced to plain values: either a path with its raw modification
/// time, or the failure the source or the metadata read produced.
#[derive(Debug)]
pub enum Visit {
    Found { path: String, mtime: RawMtime },
    Failed { path: String, kind: ErrorKind },
}

/// What one delivered entry contributes: a timestamp, or the error
/// (kind and offending path) that makes the whole run fail.
pub open spec fn visit_result(v: Visit) -> Result<u64, (ErrorKind, Seq<char>)> {
    match v {
        Visit::Found { path, mtime } => match spec_mtime_nanos(mtime) {
            Ok(t) => Ok(t),
            Err(k) => Err((k, path@)),
        },
        Visit::Failed { path, kind } => Err((kind, path@)),
    }
}

/// One worker's visitor: its exclusively owned running maximum. The
/// shared cells are handed in at each synchronization point, never
/// held here, so the hot path touches no shared state.
pub struct MtimeVisitor {
    pub thread_max_mtime: u64,
}

impl MtimeVisitor {
    /// A fresh worker, its local maximum at the epoch.
    pub fn new() -> (v: MtimeVisitor)
        ensures
            v.thread_max_mtime == 0,
    {
        MtimeVisitor { thread_max_mtime: 0 }
    }

    /// The hot path: visit one delivered entry touching nothing but
    /// the worker's own state. On a valid timestamp the local maximum
    /// absorbs it; on any failure the local maximum is left alone and
    /// the error, with its offending path, is handed back.
    pub fn visit_inner(&mut self, entry: &Visit) -> (r: Result<(), RunError>)
        ensures
            match visit_result(*entry) {
                Ok(t) => {
                    &&& r is Ok
                    &&& final(self).thread_max_mtime == max_u64(old(self).thread_max_mtime, t)
                },
                Err((k, p)) => {
                    &&& (r matches Err(e) && e.kind == k && e.path@ == p)
                    &&& final(self).thread_max_mtime == old(self).thread_max_mtime
                },
            },
    {
        match entry {
            Visit::Found { path, mtime } => match mtime_nanos(*mtime) {
                Ok(t) => {
                    if t > self.thread_max_mtime {
                        self.thread_max_mtime = t;
                    }
                    Ok(())
                },
                Err(k) => Err(RunError::new(k, path.clone())),
            },
            Visit::Failed { path, kind } => Err(RunError::new(*kind, path.clone())),
        }
    }

    /// Visit one delivered entry and decide the walk's next step. On
    /// a valid timestamp the local maximum absorbs it and the walk
    /// continues, the error signal untouched. On any failure the
    /// error is recorded first-one-wins, and the answer asks the
    /// entry source to stop dispatching.
    pub fn visit(&mut self, entry: &Visit, errors: &mut ErrorSignal) -> (s: Step)
        ensures
            match visit_result(*entry) {
                Ok(t) => {
                    &&& s == Step::Continue
                    &&& final(self).thread_max_mtime == max_u64(old(self).thread_max_mtime, t)
                    &&& final(errors).err == old(errors).err
                },
                Err((k, p)) => {
                    &&& s == Step::Quit
                    &&& final(self).thread_max_mtime == old(self).thread_max_mtime
                    &&& (old(errors).err is Some ==> final(errors).err == old(errors).err)
                    &&& (old(errors).err is None ==> (final(errors).err matches Some(e)
                        && e.kind == k && e.path@ == p))
                },
            },
    {
        match self.visit_inner(entry) {
            Ok(()) => Step::Continue,
            Err(e) => {
                errors.record(e);
                Step::Quit
            },
        }
    }

    /// Retirement: fold the worker-local maximum into the shared
    /// cell. This runs for every worker, cancelled or not, so partial
    /// progress is never lost.
    pub fn retire(&self, shared: &mut SharedMax)
        ensures
            final(shared).max == max_u64(old(shared).max, self.thread_max_mtime),
            final(shared).max >= old(shared).max,
    {
        shared.fold(self.thread_max_mtime);
    }
}

/// The orchestrator's single read after every worker has retired: an
/// error, if any worker recorded one, makes the whole run fail and
/// discards the maximum; otherwise the shared maximum is the result.
pub fn finish(shared: &SharedMax, errors: ErrorSignal) -> (r: Result<u64, RunError>)
    ensures
        match errors.err {
            Some(e) => r == Err::<u64, RunError>(e),
            None => r == Ok::<u64, RunError>(shared.max),
        },
{
    match errors.err {
        Some(e) => Err(e),
        None => Ok(shared.max),
    }
}

} // verus!
