use heap_engine::{
    BlockId, CommandId, ItemPointerData, Oid, Snapshot, Transaction, TransactionId,
    TransactionManager, VisibilityMode,
};

#[test]
fn ids_are_handed_out_in_order() {
    let mut manager = TransactionManager::new();
    assert_eq!(manager.current_xid(), TransactionId(2));
    assert_eq!(manager.begin(), TransactionId(2));
    assert_eq!(manager.begin(), TransactionId(3));
    assert_eq!(manager.get_cid(), CommandId(1));
    assert_eq!(manager.get_cid(), CommandId(2));
    assert_eq!(manager.current_xid(), TransactionId(4));
    assert!(manager.is_in_progress(TransactionId(2)));
    assert!(manager.is_in_progress(TransactionId(3)));
    assert!(!manager.is_in_progress(TransactionId(4)));
}

#[test]
fn commit_state_of_reserved_and_unknown_ids() {
    let mut manager = TransactionManager::new();
    assert!(!manager.is_committed(TransactionId::invalid()));
    assert!(manager.is_committed(TransactionId::bootstrap()));
    assert!(!manager.is_committed(TransactionId(2)));
    let xid = manager.begin();
    assert!(!manager.is_committed(xid));
    manager.abort(xid);
    assert!(!manager.is_committed(xid));
    assert!(!manager.is_in_progress(xid));
    // The reserved ids keep their state whatever is recorded for them.
    manager.commit(TransactionId(0));
    manager.abort(TransactionId(1));
    assert!(!manager.is_committed(TransactionId(0)));
    assert!(manager.is_committed(TransactionId(1)));
}

#[test]
fn committed_transactions_are_not_in_progress() {
    let mut manager = TransactionManager::new();
    let mut started = Vec::new();
    for _ in 0..10 {
        started.push(manager.begin());
    }
    for (i, xid) in started.iter().enumerate() {
        if i % 3 == 0 {
            manager.commit(*xid);
        } else if i % 3 == 1 {
            manager.abort(*xid);
        }
    }
    for xid in started.iter() {
        if manager.is_committed(*xid) {
            assert!(!manager.is_in_progress(*xid));
        }
    }
    assert!(manager.is_committed(TransactionId(2)));
    assert!(!manager.is_committed(TransactionId(3)));
    assert!(manager.is_in_progress(TransactionId(4)));
}

#[test]
fn snapshot_holds_what_is_in_progress() {
    let mut manager = TransactionManager::new();

    let empty = manager.get_snapshot(CommandId(7));
    assert_eq!(empty.xmin, TransactionId(1));
    assert_eq!(empty.xmax, TransactionId(2));
    assert!(empty.xip.is_empty());
    assert_eq!(empty.curcid, CommandId(7));
    assert_eq!(empty.mode, VisibilityMode::MVCC);

    let t1 = manager.begin();
    let first = manager.get_snapshot(CommandId(1));
    assert_eq!(first.xmin, TransactionId(2));
    assert_eq!(first.xmax, TransactionId(3));
    assert_eq!(first.xip, vec![TransactionId(2)]);

    let _t2 = manager.begin();
    let t3 = manager.begin();
    manager.commit(t1);
    let later = manager.get_snapshot(CommandId(1));
    assert_eq!(later.xmin, TransactionId(3));
    assert_eq!(later.xmax, TransactionId(5));
    assert_eq!(later.xip, vec![TransactionId(3), TransactionId(4)]);
    for x in later.xip.iter() {
        assert!(later.xmin.0 <= x.0 && x.0 < later.xmax.0);
        assert!(later.contains(*x));
    }
    assert!(later.xip_contains(t3));
    assert!(!later.xip_contains(t1));

    manager.commit(TransactionId(3));
    manager.abort(t3);
    let done = manager.get_snapshot(CommandId(1));
    assert_eq!(done.xmin, TransactionId(4));
    assert_eq!(done.xmax, TransactionId(5));
    assert!(done.xip.is_empty());
}

#[test]
fn reclaimable_needs_a_commit_below_every_floor() {
    let mut manager = TransactionManager::new();
    let t1 = manager.begin();
    let t2 = manager.begin();
    let t3 = manager.begin();
    // Each transaction records the oldest one in progress when it began.
    assert_eq!(manager.floor(t1), TransactionId(2));
    assert_eq!(manager.floor(t2), TransactionId(2));
    assert_eq!(manager.floor(t3), TransactionId(2));
    assert_eq!(manager.horizon(), TransactionId(2));
    assert!(!manager.is_reclaimable(TransactionId(0)));
    assert!(!manager.is_reclaimable(t1));
    manager.commit(t2);
    assert!(!manager.is_reclaimable(t2));
    manager.abort(t1);
    assert_eq!(manager.horizon(), TransactionId(4));
    // The third transaction began while the first two ran: a snapshot of
    // its own may reach down to the first.
    assert_eq!(manager.floor(t3), TransactionId(2));
    assert!(!manager.is_reclaimable(t2));
    assert!(manager.is_reclaimable(TransactionId(1)));
    manager.commit(t3);
    assert_eq!(manager.horizon(), TransactionId(5));
    assert!(manager.is_reclaimable(t2));
    assert!(manager.is_reclaimable(t3));
    assert!(!manager.is_reclaimable(t1));

    let t4 = manager.begin();
    assert_eq!(manager.floor(t4), TransactionId(5));
    let t5 = manager.begin();
    assert_eq!(manager.floor(t5), TransactionId(5));
    assert!(manager.is_reclaimable(t3));
    manager.commit(t4);
    assert!(!manager.is_reclaimable(t4));
    manager.commit(t5);
    assert!(manager.is_reclaimable(t4));
    // A snapshot never reaches below the floor of a transaction that runs.
    let t6 = manager.begin();
    let t7 = manager.begin();
    manager.commit(t6);
    let snapshot = manager.get_snapshot(CommandId(1));
    assert!(manager.floor(t7).0 <= snapshot.xmin.0);
    assert_eq!(manager.floor(t7), t6);
    assert_eq!(snapshot.xmin, t7);
}

#[test]
fn transaction_takes_an_id_and_a_command() {
    let mut manager = TransactionManager::new();
    let tx = Transaction::new(&mut manager);
    assert_eq!(tx.xid(), TransactionId(2));
    assert_eq!(tx.get_cid(), CommandId(1));
    let other = Transaction::new(&mut manager);
    assert_eq!(other.xid, TransactionId(3));
    assert_eq!(other.cid, CommandId(2));
    tx.commit(&mut manager);
    other.abort(&mut manager);
    assert!(manager.is_committed(TransactionId(2)));
    assert!(!manager.is_committed(TransactionId(3)));
    assert!(!manager.is_in_progress(TransactionId(2)));
    assert!(!manager.is_in_progress(TransactionId(3)));
}

#[test]
fn identifier_values() {
    assert!(TransactionId::invalid().is_invalid());
    assert!(!TransactionId::invalid().is_valid());
    assert_eq!(TransactionId::bootstrap().0, 1);
    assert_eq!(TransactionId::first_normal().0, 2);
    assert_eq!(TransactionId::default(), TransactionId(0));
    assert_eq!(TransactionId::from(9u32), TransactionId(9));
    assert_eq!(u32::from(TransactionId(9)), 9);
    assert!(!TransactionId(5).is_committed());
    assert!(TransactionId(5).is_in_progress(TransactionId(5), TransactionId(6)));
    assert!(!TransactionId(6).is_in_progress(TransactionId(5), TransactionId(6)));
    assert!(!TransactionId(4).is_in_progress(TransactionId(5), TransactionId(6)));
    assert!(TransactionId(3) < TransactionId(4));
    assert_eq!(CommandId::invalid(), CommandId(0));
    assert_eq!(Oid::invalid(), Oid(0));

    let nowhere = ItemPointerData::invalid();
    assert!(nowhere.is_invalid());
    assert!(!nowhere.is_valid());
    let first_block = ItemPointerData {
        block_number: 0,
        offset_number: 1,
    };
    assert!(first_block.is_valid());
    let second_block = ItemPointerData {
        block_number: 1,
        offset_number: 0,
    };
    assert!(second_block.is_valid());

    let block = BlockId::new(1, 2, 3);
    assert_eq!((block.db_node, block.rel_node, block.block_num), (1, 2, 3));
    assert_eq!(BlockId::default(), BlockId::new(0, 0, 0));
}

#[test]
fn snapshot_constructors() {
    let snapshot = Snapshot::new(3, 9, vec![4, 7], 2, VisibilityMode::Stable);
    assert_eq!(snapshot.xmin, TransactionId(3));
    assert_eq!(snapshot.xmax, TransactionId(9));
    assert_eq!(snapshot.xip, vec![TransactionId(4), TransactionId(7)]);
    assert_eq!(snapshot.curcid, CommandId(2));
    assert_eq!(snapshot.mode, VisibilityMode::Stable);
    assert!(snapshot.contains(TransactionId(3)));
    assert!(snapshot.contains(TransactionId(8)));
    assert!(!snapshot.contains(TransactionId(9)));
    assert!(!snapshot.contains(TransactionId(2)));

    let invalid = Snapshot::invalid();
    assert_eq!(invalid.xmin, TransactionId(0));
    assert_eq!(invalid.xmax, TransactionId(0));
    assert!(invalid.xip.is_empty());
    assert_eq!(invalid.mode, VisibilityMode::MVCC);
    assert!(!invalid.contains(TransactionId(0)));
}
