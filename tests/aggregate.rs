use du_scan::aggregate::{degrade_to_zero, sum_walk, EntryKind, SizeTotal, WalkedEntry};

fn file(n: u64) -> Option<WalkedEntry> {
    Some(WalkedEntry { kind: EntryKind::File, real_size: Some(n) })
}

fn dir() -> Option<WalkedEntry> {
    Some(WalkedEntry { kind: EntryKind::Dir, real_size: Some(4096) })
}

#[test]
fn sums_regular_files_only() {
    let items = vec![
        dir(),
        file(1000),
        Some(WalkedEntry { kind: EntryKind::Symlink, real_size: Some(7) }),
        Some(WalkedEntry { kind: EntryKind::Other, real_size: Some(9) }),
        file(48),
        file(1000),
    ];
    assert_eq!(sum_walk(&items), 2048);
}

#[test]
fn empty_walk_totals_zero() {
    assert_eq!(sum_walk(&vec![]), 0);
    assert_eq!(sum_walk(&vec![dir()]), 0);
}

#[test]
fn failed_probe_and_failed_step_degrade_to_zero() {
    let probe_failed = Some(WalkedEntry { kind: EntryKind::File, real_size: None });
    assert_eq!(degrade_to_zero(&probe_failed), 0);
    assert_eq!(degrade_to_zero(&None), 0);
    assert_eq!(degrade_to_zero(&file(512)), 512);
    assert_eq!(sum_walk(&vec![file(100), probe_failed, None, file(24)]), 124);
}

#[test]
fn file_deleted_mid_scan_contributes_nothing() {
    // The walk listed the file but its size could no longer be read, and a
    // directory vanished before it could be entered.
    let deleted = Some(WalkedEntry { kind: EntryKind::File, real_size: None });
    let items = vec![file(4096), deleted, None, file(4096)];
    assert_eq!(sum_walk(&items), 8192);
}

#[test]
fn total_does_not_depend_on_walk_order() {
    let a = vec![file(1), file(20), dir(), file(300), None, file(4000)];
    let b = vec![file(4000), None, file(300), file(1), dir(), file(20)];
    assert_eq!(sum_walk(&a), sum_walk(&b));
    assert_eq!(sum_walk(&a), 4321);
}

#[test]
fn walking_twice_gives_the_same_total() {
    let items = vec![file(123), file(456), dir()];
    assert_eq!(sum_walk(&items), sum_walk(&items));
}

#[test]
fn total_saturates_at_u64_max() {
    assert_eq!(sum_walk(&vec![file(u64::MAX), file(1)]), u64::MAX);
    assert_eq!(sum_walk(&vec![file(u64::MAX - 1), file(1)]), u64::MAX);
}

#[test]
fn streaming_total_matches_batch_total() {
    let items = vec![file(10), None, file(32), dir()];
    let mut acc = SizeTotal::new();
    for it in items.iter() {
        acc.add(*it);
    }
    assert_eq!(acc.total(), sum_walk(&items));
    assert_eq!(acc.total(), 42);
}
