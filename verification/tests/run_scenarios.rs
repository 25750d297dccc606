use maxtime::errors::ErrorKind;
use maxtime::reducer::Visit;
use maxtime::run::{run_partitioned, run_single_worker};
use maxtime::timestamp::RawMtime;

fn found(path: &str, secs: u64, nanos: u32) -> Visit {
    Visit::Found { path: path.to_owned(), mtime: RawMtime::SinceEpoch { secs, nanos } }
}

fn failed(path: &str, kind: ErrorKind) -> Visit {
    Visit::Failed { path: path.to_owned(), kind }
}

#[test]
fn known_tree_reports_most_recent() {
    // File `a` at T1, file `b` at T2 > T1, directory `d` holding both
    // at T3 < T2: the reported maximum is exactly T2.
    let t1: u64 = 10;
    let t2: u64 = 20;
    let t3: u64 = 15;
    let events = vec![
        found("d", t3, 0),
        found("d/a", t1, 0),
        found("d/b", t2, 0),
    ];
    let r = run_single_worker(&events);
    assert_eq!(r.unwrap(), t2 * 1_000_000_000);
}

#[test]
fn deterministic_across_partitions() {
    // The same entries, partitioned and ordered differently among
    // workers, reduce to the same maximum.
    let a = || found("a", 3, 7);
    let b = || found("b", 90, 1);
    let c = || found("c", 42, 0);
    let d = || found("d", 0, 999_999_999);
    let one = run_partitioned(&vec![vec![a(), b()], vec![c(), d()]]);
    let two = run_partitioned(&vec![vec![d(), c(), b(), a()]]);
    let three = run_partitioned(&vec![vec![c()], vec![a(), d()], vec![], vec![b()]]);
    let expect: u64 = 90 * 1_000_000_000 + 1;
    assert_eq!(one.unwrap(), expect);
    assert_eq!(two.unwrap(), expect);
    assert_eq!(three.unwrap(), expect);
}

#[test]
fn ignored_entry_does_not_count() {
    // An entry held back by the ignore rules is never delivered, so
    // even the largest modification time in the tree cannot leak into
    // the result: the output is the maximum of the delivered entries
    // alone.
    let delivered = vec![found("src/a", 50, 0), found("src/b", 60, 0)];
    let ignored_mtime: u64 = 1_000_000; // far larger than anything delivered
    let r = run_single_worker(&delivered);
    let max = r.unwrap();
    assert_eq!(max, 60 * 1_000_000_000);
    assert!(max < ignored_mtime * 1_000_000_000);
}

#[test]
fn fail_fast_on_unreadable_entry() {
    // One unreadable entry fails the whole run, whatever valid maxima
    // other entries produced.
    let events = vec![
        found("a", 100, 0),
        failed("locked", ErrorKind::Metadata),
        found("b", 999, 0),
    ];
    let r = run_single_worker(&events);
    let e = r.unwrap_err();
    assert_eq!(e.kind, ErrorKind::Metadata);
    assert_eq!(e.path, "locked");
}

#[test]
fn fail_fast_in_any_partition() {
    let parts = vec![
        vec![found("a", 7, 0)],
        vec![found("b", 8, 0), failed("gone", ErrorKind::ReadEntry)],
    ];
    let r = run_partitioned(&parts);
    let e = r.unwrap_err();
    assert_eq!(e.kind, ErrorKind::ReadEntry);
    assert_eq!(e.path, "gone");
}

#[test]
fn first_error_wins() {
    let events = vec![
        failed("first", ErrorKind::ReadEntry),
        failed("second", ErrorKind::Metadata),
    ];
    let e = run_single_worker(&events).unwrap_err();
    assert_eq!(e.kind, ErrorKind::ReadEntry);
    assert_eq!(e.path, "first");
}

#[test]
fn pre_epoch_and_overflow_fail_the_run() {
    let pre = vec![Visit::Found { path: "old".to_owned(), mtime: RawMtime::PreEpoch }];
    let e = run_single_worker(&pre).unwrap_err();
    assert_eq!(e.kind, ErrorKind::PreEpoch);
    assert_eq!(e.path, "old");

    let far = vec![found("far", u64::MAX, 0)];
    let e = run_single_worker(&far).unwrap_err();
    assert_eq!(e.kind, ErrorKind::Overflow);
    assert_eq!(e.path, "far");
}

#[test]
fn idempotent_on_unchanged_tree() {
    // Scanning the same delivery twice reports the same output both
    // times.
    let events = vec![found("a", 5, 5), found("b", 11, 0), found("c", 11, 1)];
    let one = run_single_worker(&events);
    let two = run_single_worker(&events);
    assert_eq!(one.unwrap(), two.unwrap());
}

#[test]
fn empty_tree_reports_epoch() {
    let r = run_single_worker(&vec![]);
    assert_eq!(r.unwrap(), 0);
}
