use maxtime::config::Config;
use maxtime::errors::ErrorKind;
use maxtime::timestamp::{mtime_nanos, RawMtime, NANOS_PER_SEC};

#[test]
fn converts_seconds_and_nanos_exactly() {
    assert_eq!(mtime_nanos(RawMtime::SinceEpoch { secs: 0, nanos: 0 }), Ok(0));
    assert_eq!(mtime_nanos(RawMtime::SinceEpoch { secs: 1, nanos: 5 }), Ok(1_000_000_005));
    assert_eq!(
        mtime_nanos(RawMtime::SinceEpoch { secs: 1_600_000_000, nanos: 999_999_999 }),
        Ok(1_600_000_000 * NANOS_PER_SEC + 999_999_999)
    );
}

#[test]
fn rejects_pre_epoch_times() {
    assert_eq!(mtime_nanos(RawMtime::PreEpoch), Err(ErrorKind::PreEpoch));
}

#[test]
fn rejects_counts_past_64_bits() {
    // The largest representable time: u64::MAX nanoseconds exactly.
    let last_secs: u64 = u64::MAX / NANOS_PER_SEC;
    let last_nanos: u32 = (u64::MAX % NANOS_PER_SEC) as u32;
    assert_eq!(
        mtime_nanos(RawMtime::SinceEpoch { secs: last_secs, nanos: last_nanos }),
        Ok(u64::MAX)
    );
    assert_eq!(
        mtime_nanos(RawMtime::SinceEpoch { secs: last_secs, nanos: last_nanos + 1 }),
        Err(ErrorKind::Overflow)
    );
    assert_eq!(
        mtime_nanos(RawMtime::SinceEpoch { secs: u64::MAX, nanos: 0 }),
        Err(ErrorKind::Overflow)
    );
}

#[test]
fn config_defaults_to_current_directory() {
    let c = Config::new(None, None, false);
    assert_eq!(c.root, ".");
    assert_eq!(c.stamp, None);
    assert!(!c.quiet);

    let c = Config::new(Some("tree".to_owned()), Some("out".to_owned()), true);
    assert_eq!(c.root, "tree");
    assert_eq!(c.stamp.as_deref(), Some("out"));
    assert!(c.quiet);
}
