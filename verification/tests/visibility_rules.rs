use heap_engine::{
    CommandId, HeapTuple, HeapTupleStatus, Snapshot, TransactionId, Visibility, VisibilityMode,
};

fn tuple(xmin: u32, xmax: u32, cid: u32) -> HeapTuple {
    let mut t = HeapTuple::new(1);
    t.header.t_xmin = xmin;
    t.header.t_xmax = xmax;
    t.header.t_cid = cid;
    t
}

fn mvcc(t: &HeapTuple, s: &Snapshot, cur: u32) -> bool {
    Visibility::heap_tuple_satisfies_mvcc(t, s, TransactionId(cur))
}

#[test]
fn mvcc_creation_test() {
    let s = Snapshot::new(10, 20, vec![12, 15], 1, VisibilityMode::MVCC);

    // The reader's own write.
    assert!(mvcc(&tuple(15, 0, 1), &s, 15));
    assert!(mvcc(&tuple(25, 0, 1), &s, 25));

    // In the range: the hints decide first, then the list of transactions
    // in progress.
    assert!(!mvcc(&tuple(12, 0, 1), &s, 99));
    assert!(mvcc(&tuple(13, 0, 1), &s, 99));
    let mut hinted = tuple(12, 0, 1);
    hinted.header.set_xmin_committed(true);
    assert!(mvcc(&hinted, &s, 99));
    let mut aborted = tuple(13, 0, 1);
    aborted.header.set_xmin_invalid(true);
    assert!(!mvcc(&aborted, &s, 99));
    aborted.header.set_xmin_committed(true);
    assert!(mvcc(&aborted, &s, 99));

    // Older than the range: visible unless hinted as aborted.
    assert!(mvcc(&tuple(5, 0, 1), &s, 99));
    let mut old_aborted = tuple(5, 0, 1);
    old_aborted.header.set_xmin_invalid(true);
    assert!(!mvcc(&old_aborted, &s, 99));

    // At or past the upper bound: in the future.
    assert!(!mvcc(&tuple(20, 0, 1), &s, 99));
    assert!(!mvcc(&tuple(21, 0, 1), &s, 99));
    assert!(mvcc(&tuple(10, 0, 1), &s, 99));
    assert!(mvcc(&tuple(19, 0, 1), &s, 99));
}

#[test]
fn mvcc_obsolescence_test() {
    let s = Snapshot::new(10, 20, vec![], 1, VisibilityMode::MVCC);

    // Deleted by the reader: visible only if merely locked.
    let mut own = tuple(5, 50, 1);
    assert!(!mvcc(&own, &s, 50));
    own.header.set_xmax_is_locked_only(true);
    assert!(mvcc(&own, &s, 50));

    // The deleter is in the future of the snapshot.
    assert!(mvcc(&tuple(5, 20, 1), &s, 99));
    assert!(mvcc(&tuple(5, 30, 1), &s, 99));

    // The deleter is older than the range.
    let mut older = tuple(5, 7, 1);
    assert!(!mvcc(&older, &s, 99));
    older.header.set_xmax_is_locked_only(true);
    assert!(!mvcc(&older, &s, 99));
    older.header.set_xmax_invalid(true);
    assert!(mvcc(&older, &s, 99));
    older.header.set_xmax_committed(true);
    assert!(!mvcc(&older, &s, 99));

    // The deleter is in the range.
    let mut within = tuple(5, 15, 1);
    assert!(!mvcc(&within, &s, 99));
    within.header.set_xmax_is_locked_only(true);
    assert!(mvcc(&within, &s, 99));
    within.header.set_xmax_is_locked_only(false);
    within.header.set_xmax_invalid(true);
    assert!(mvcc(&within, &s, 99));
    within.header.set_xmax_committed(true);
    assert!(!mvcc(&within, &s, 99));
}

#[test]
fn self_mode_hides_later_commands() {
    let cur = TransactionId(7);
    let seen = |t: &HeapTuple, cid: u32| {
        Visibility::heap_tuple_satisfies_self(t, cur, CommandId(cid))
    };
    assert!(seen(&tuple(7, 0, 3), 3));
    assert!(seen(&tuple(7, 0, 3), 4));
    assert!(!seen(&tuple(7, 0, 3), 2));
    // Another transaction's command id does not hide its tuple.
    assert!(seen(&tuple(8, 0, 3), 2));

    let mut own_delete = tuple(5, 7, 1);
    assert!(!seen(&own_delete, 9));
    own_delete.header.set_xmax_is_locked_only(true);
    assert!(seen(&own_delete, 9));

    let mut deleted = tuple(5, 6, 1);
    assert!(seen(&deleted, 9));
    deleted.header.set_xmax_committed(true);
    assert!(!seen(&deleted, 9));
}

#[test]
fn any_mode_hides_only_committed_deletes() {
    let mut t = tuple(5, 6, 1);
    assert!(Visibility::heap_tuple_satisfies_any(&t));
    t.header.set_xmax_invalid(true);
    assert!(Visibility::heap_tuple_satisfies_any(&t));
    t.header.set_xmax_committed(true);
    assert!(!Visibility::heap_tuple_satisfies_any(&t));
    // Without a deleter the hint means nothing.
    t.header.t_xmax = 0;
    assert!(Visibility::heap_tuple_satisfies_any(&t));
}

#[test]
fn stable_mode_is_mvcc_without_a_reader() {
    let s = Snapshot::new(10, 20, vec![12], 1, VisibilityMode::Stable);
    let stable = |t: &HeapTuple| Visibility::heap_tuple_satisfies_stable(t, &s);
    assert!(stable(&tuple(5, 0, 1)));
    assert!(stable(&tuple(13, 0, 1)));
    assert!(!stable(&tuple(12, 0, 1)));
    assert!(!stable(&tuple(20, 0, 1)));
    assert!(!stable(&tuple(25, 0, 1)));
    assert!(!stable(&tuple(5, 7, 1)));
    assert!(stable(&tuple(5, 20, 1)));
    assert!(!stable(&tuple(5, 15, 1)));
    let mut aborted_delete = tuple(5, 15, 1);
    aborted_delete.header.set_xmax_invalid(true);
    assert!(stable(&aborted_delete));
    for xmin in [5u32, 12, 13, 20] {
        for xmax in [0u32, 7, 15, 30] {
            let t = tuple(xmin, xmax, 1);
            // No transaction id is 4000000000 here, so no tuple is the
            // reader's own.
            assert_eq!(stable(&t), mvcc(&t, &s, 4_000_000_000));
        }
    }
}

#[test]
fn satisfies_follows_the_mode_of_the_snapshot() {
    let t = tuple(12, 0, 5);
    let cur = TransactionId(12);
    let with_mode = |mode| Snapshot::new(10, 20, vec![12], 1, mode);
    assert!(Visibility::satisfies(&t, &with_mode(VisibilityMode::MVCC), cur));
    assert!(!Visibility::satisfies(&t, &with_mode(VisibilityMode::Self_), cur));
    assert!(Visibility::satisfies(&t, &with_mode(VisibilityMode::Any), cur));
    assert!(!Visibility::satisfies(&t, &with_mode(VisibilityMode::Stable), cur));
}

#[test]
fn hint_bits_cache_the_commit_state() {
    let mut t = tuple(5, 6, 1);
    Visibility::set_hint_bits(&mut t, HeapTupleStatus::Aborted, HeapTupleStatus::Comitted);
    assert_eq!(t.header.t_infomask, 0x0200 | 0x0400);
    Visibility::set_hint_bits(&mut t, HeapTupleStatus::Comitted, HeapTupleStatus::Aborted);
    assert_eq!(t.header.t_infomask, 0x0100 | 0x0800);
    Visibility::set_hint_bits(&mut t, HeapTupleStatus::InProgress, HeapTupleStatus::Unknown);
    assert_eq!(t.header.t_infomask, 0x0100 | 0x0800);
    assert_eq!(t.header.t_xmin, 5);
    assert_eq!(t.header.t_xmax, 6);
}

#[test]
fn temporal_status() {
    let s = Snapshot::new(10, 20, vec![], 1, VisibilityMode::MVCC);
    let status = |t: &HeapTuple| Visibility::get_temporal(t, &s);
    assert_eq!(status(&tuple(0, 0, 1)), HeapTupleStatus::Dead);
    assert_eq!(status(&tuple(5, 6, 1)), HeapTupleStatus::Modified);
    assert_eq!(status(&tuple(10, 0, 1)), HeapTupleStatus::InProgress);
    assert_eq!(status(&tuple(19, 0, 1)), HeapTupleStatus::InProgress);
    assert_eq!(status(&tuple(20, 0, 1)), HeapTupleStatus::Unknown);
    assert_eq!(status(&tuple(5, 0, 1)), HeapTupleStatus::Unknown);
    let mut live = tuple(5, 0, 1);
    live.header.set_xmin_committed(true);
    assert_eq!(status(&live), HeapTupleStatus::Live);
    let mut dead = tuple(5, 0, 1);
    dead.header.set_xmin_invalid(true);
    assert_eq!(status(&dead), HeapTupleStatus::Dead);
}
