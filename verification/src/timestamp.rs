//! Timestamp extraction: modification times as nanoseconds since the epoch.
//!
//! A timestamp is an unsigned 64-bit count of nanoseconds since
//! 00:00:00 UTC, 1 Jan 1970. The walker hands the core a raw
//! modification time as plain values (whole seconds plus subsecond
//! nanoseconds, or the fact that the time predates the epoch); the
//! conversion to one nanosecond count, with its two failure modes, is
//! decided here.

use vstd::prelude::*;
use crate::errors::ErrorKind;

verus! {

pub const NANOS_PER_SEC: u64 = 1_000_000_000;

/// A modification time as read from filesystem metadata, reduced to
/// plain values: either it predates the reference epoch, or it is a
/// duration since the epoch in whole seconds and subsecond nanoseconds.
#[derive(Clone, Copy, PartialEq, Eq, Structural, Debug)]
pub enum RawMtime {
    PreEpoch,
    SinceEpoch { secs: u64, nanos: u32 },
}

/// The mathematical nanosecond count of a duration since the epoch.
pub open spec fn total_nanos(secs: u64, nanos: u32) -> int {
    secs * (NANOS_PER_SEC as int) + nanos
}

/// What converting a raw modification time must yield: the exact
/// nanosecond count when it exists, the precise error otherwise.
pub open spec fn spec_mtime_nanos(raw: RawMtime) -> Result<u64, ErrorKind> {
    match raw {
        RawMtime::PreEpoch => Err(ErrorKind::PreEpoch),
        RawMtime::SinceEpoch { secs, nanos } => {
            if total_nanos(secs, nanos) <= u64::MAX {
                Ok(total_nanos(secs, nanos) as u64)
            } else {
                Err(ErrorKind::Overflow)
            }
        },
    }
}

/// Convert a raw modification time to a nanosecond timestamp.
/// Times before the epoch and counts beyond 64 bits are errors, never
/// clamped.
pub fn mtime_nanos(raw: RawMtime) -> (r: Result<u64, ErrorKind>)
    ensures
        r == spec_mtime_nanos(raw),
{
    match raw {
        RawMtime::PreEpoch => Err(ErrorKind::PreEpoch),
        RawMtime::SinceEpoch { secs, nanos } => {
            let nanos64: u64 = nanos as u64;
            if secs <= (u64::MAX - nanos64) / NANOS_PER_SEC {
                assert(secs * (NANOS_PER_SEC as int) <= u64::MAX - nanos64) by (nonlinear_arith)
                    requires
                        secs as int <= ((u64::MAX - nanos64) as int) / (NANOS_PER_SEC as int),
                        nanos64 <= u64::MAX,
                ;
                Ok(secs * NANOS_PER_SEC + nanos64)
            } else {
                assert(secs * (NANOS_PER_SEC as int) + nanos64 > u64::MAX) by (nonlinear_arith)
                    requires
                        secs as int > ((u64::MAX - nanos64) as int) / (NANOS_PER_SEC as int),
                        nanos64 <= u64::MAX,
                ;
                Err(ErrorKind::Overflow)
            }
        },
    }
}

} // verus!
