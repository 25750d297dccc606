use maxtime::errors::{ErrorKind, RunError};
use maxtime::reducer::{finish, ErrorSignal, MtimeVisitor, SharedMax, Step, Visit};
use maxtime::timestamp::RawMtime;

fn found(path: &str, secs: u64, nanos: u32) -> Visit {
    Visit::Found { path: path.to_owned(), mtime: RawMtime::SinceEpoch { secs, nanos } }
}

#[test]
fn visitor_starts_at_epoch() {
    let v = MtimeVisitor::new();
    assert_eq!(v.thread_max_mtime, 0);
}

#[test]
fn visitor_absorbs_local_maximum() {
    let mut v = MtimeVisitor::new();
    let mut errors = ErrorSignal::new();
    assert_eq!(v.visit(&found("a", 2, 0), &mut errors), Step::Continue);
    assert_eq!(v.thread_max_mtime, 2_000_000_000);
    assert_eq!(v.visit(&found("b", 1, 5), &mut errors), Step::Continue);
    assert_eq!(v.thread_max_mtime, 2_000_000_000);
    assert_eq!(v.visit(&found("c", 3, 1), &mut errors), Step::Continue);
    assert_eq!(v.thread_max_mtime, 3_000_000_001);
    assert!(!errors.is_set());
}

#[test]
fn visit_failure_records_and_quits() {
    let mut v = MtimeVisitor::new();
    let mut errors = ErrorSignal::new();
    assert_eq!(v.visit(&found("a", 9, 0), &mut errors), Step::Continue);
    let bad = Visit::Failed { path: "bad".to_owned(), kind: ErrorKind::MtimeUnavailable };
    assert_eq!(v.visit(&bad, &mut errors), Step::Quit);
    assert!(errors.is_set());
    let e = errors.err.unwrap();
    assert_eq!(e.kind, ErrorKind::MtimeUnavailable);
    assert_eq!(e.path, "bad");
    // The failing entry leaves the local maximum alone.
    assert_eq!(v.thread_max_mtime, 9_000_000_000);
}

#[test]
fn retirement_folds_partial_progress() {
    let mut shared = SharedMax::new();
    let mut errors = ErrorSignal::new();
    let mut v = MtimeVisitor::new();
    v.visit(&found("a", 4, 0), &mut errors);
    v.retire(&mut shared);
    assert_eq!(shared.max, 4_000_000_000);
    // A second worker with a smaller maximum does not lower it.
    let w = MtimeVisitor::new();
    w.retire(&mut shared);
    assert_eq!(shared.max, 4_000_000_000);
}

#[test]
fn shared_max_monotone_at_every_fold() {
    let mut shared = SharedMax::new();
    let locals: Vec<u64> = vec![3, 1, 7, 7, 2, 0, 9, 4];
    let mut last: u64 = shared.max;
    for local in locals {
        shared.fold(local);
        assert!(shared.max >= last);
        assert!(shared.max >= local);
        last = shared.max;
    }
    assert_eq!(shared.max, 9);
}

#[test]
fn error_signal_keeps_the_first_error() {
    let mut errors = ErrorSignal::new();
    assert!(!errors.is_set());
    errors.record(RunError::new(ErrorKind::ReadEntry, "one".to_owned()));
    assert!(errors.is_set());
    errors.record(RunError::new(ErrorKind::Overflow, "two".to_owned()));
    let e = errors.err.unwrap();
    assert_eq!(e.kind, ErrorKind::ReadEntry);
    assert_eq!(e.path, "one");
}

#[test]
fn finish_reads_the_aggregate_once() {
    let mut shared = SharedMax::new();
    shared.fold(17);
    let clean = ErrorSignal::new();
    assert_eq!(finish(&shared, clean).unwrap(), 17);

    let mut tainted = ErrorSignal::new();
    tainted.record(RunError::new(ErrorKind::Metadata, "p".to_owned()));
    let e = finish(&shared, tainted).unwrap_err();
    assert_eq!(e.kind, ErrorKind::Metadata);
    assert_eq!(e.path, "p");
}
