use heap_engine::{CommandId, TransactionManager};

#[test]
fn test_transaction_manager() {
    let mut manager = TransactionManager::new();

    let xid1 = manager.begin();
    assert!(xid1.is_valid());

    let cid1 = manager.get_cid();
    assert!(cid1.0 > 0);

    manager.commit(xid1);
    assert!(manager.is_committed(xid1));
}

#[test]
fn test_transaction() {
    let mut manager = TransactionManager::new();

    let xid = manager.begin();
    assert!(xid.is_valid());

    manager.commit(xid);

    assert!(manager.is_committed(xid));
}

#[test]
fn test_snapshot() {
    let mut manager = TransactionManager::new();

    manager.begin();

    let snapshot = manager.get_snapshot(CommandId(1));
    assert!(snapshot.xmin.is_valid());
}
