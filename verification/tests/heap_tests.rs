use heap_engine::{
    CommandId, HeapEngine, HeapRelation, Page, Relation, Snapshot, Storage, TransactionId,
    TransactionManager, VisibilityMode,
};

#[test]
fn test_storage() {
    let mut storage = Storage::new().unwrap();

    let page = Page::new(8192);
    storage.write_page(0, &page).unwrap();

    let read_page = storage.read_page(0).unwrap();
    assert_eq!(read_page.item_count(), 0);
}

#[test]
fn test_storage_multiple_pages() {
    let mut storage = Storage::new().unwrap();

    let mut page1 = Page::new(8192);
    page1.add_item(b"data1").unwrap();
    storage.write_page(0, &page1).unwrap();

    let mut page2 = Page::new(8192);
    page2.add_item(b"data2").unwrap();
    storage.write_page(1, &page2).unwrap();

    let read_page1 = storage.read_page(0).unwrap();
    let read_page2 = storage.read_page(1).unwrap();

    assert_eq!(read_page1.item_count(), 1);
    assert_eq!(read_page2.item_count(), 1);
}

#[test]
fn test_heap_insert() {
    let (mut heap, _) = HeapRelation::create(2).unwrap();

    let ctid = heap
        .insert(TransactionId(100), CommandId(1), b"test_data")
        .unwrap();
    assert!(ctid.is_valid());

    let retrieved = heap.get(ctid).unwrap();
    assert!(retrieved.is_some());
}

#[test]
fn test_heap_update() {
    let (mut heap, _) = HeapRelation::create(2).unwrap();

    let ctid = heap
        .insert(TransactionId(100), CommandId(1), b"original")
        .unwrap();

    let new_ctid = heap
        .update(TransactionId(101), CommandId(2), ctid, b"updated")
        .unwrap();
    assert!(new_ctid.is_some());

    let old_tuple = heap.get(ctid).unwrap().unwrap();
    assert!(!old_tuple.xmax().is_invalid());
}

#[test]
fn test_heap_delete() {
    let (mut heap, _) = HeapRelation::create(2).unwrap();

    let ctid = heap
        .insert(TransactionId(100), CommandId(1), b"test")
        .unwrap();

    let deleted = heap.delete(TransactionId(101), CommandId(2), ctid).unwrap();
    assert!(deleted);

    let tuple = heap.get(ctid).unwrap().unwrap();
    assert!(!tuple.xmax().is_invalid());
}

#[test]
fn test_heap_scan() {
    let (mut heap, _) = HeapRelation::create(2).unwrap();

    heap.insert(TransactionId(100), CommandId(1), b"data1")
        .unwrap();
    heap.insert(TransactionId(101), CommandId(1), b"data2")
        .unwrap();
    heap.insert(TransactionId(102), CommandId(1), b"data3")
        .unwrap();

    let snapshot = Snapshot::new(1, 200, vec![], 10, VisibilityMode::MVCC);
    let results = heap.scan(&snapshot, TransactionId(150)).unwrap();

    assert_eq!(results.len(), 3);
}

#[test]
fn test_heap_vacuum() {
    let (mut heap, _) = HeapRelation::create(2).unwrap();

    let ctid1 = heap
        .insert(TransactionId(100), CommandId(1), b"data1")
        .unwrap();
    let _ctid2 = heap
        .insert(TransactionId(101), CommandId(1), b"data2")
        .unwrap();

    heap.delete(TransactionId(102), CommandId(2), ctid1)
        .unwrap();

    // Vacuum reclaims only what a committed transaction deleted.
    assert_eq!(heap.vacuum().unwrap(), 0);
    heap.tx_manager.commit(TransactionId(102));

    let removed = heap.vacuum().unwrap();
    assert!(removed > 0);
}

#[test]
fn test_heap_engine_full_workflow() {
    let (mut engine, rel_id) = HeapEngine::create(2).unwrap();
    assert!(rel_id > 0);

    engine.begin();

    let ctid1 = engine.insert(b"row1").unwrap();
    let ctid2 = engine.insert(b"row2").unwrap();
    let _ctid3 = engine.insert(b"row3").unwrap();

    let results = engine.scan().unwrap();
    assert_eq!(results.len(), 3);

    let updated = engine.update(ctid1, b"row1_updated").unwrap();
    assert!(updated.is_some());

    let deleted = engine.delete(ctid2).unwrap();
    assert!(deleted);

    engine.commit();

    // The new version of the first row and the untouched third row remain.
    let results = engine.scan().unwrap();
    assert_eq!(results.len(), 2);
    assert_eq!(results[0].1.data, b"row3".to_vec());
    assert_eq!(results[1].1.data, b"row1_updated".to_vec());

    engine.close().unwrap();
}

#[test]
fn test_mvcc_isolation() {
    let tx_manager = TransactionManager::new();

    let mut heap = HeapRelation {
        relation: Relation::open(Vec::new()).unwrap(),
        natts: 2,
        tx_manager,
    };

    let _ctid = heap
        .insert(TransactionId(100), CommandId(1), b"data")
        .unwrap();

    let snapshot = Snapshot::new(1, 200, vec![], 10, VisibilityMode::MVCC);
    let results = heap.scan(&snapshot, TransactionId(150)).unwrap();

    assert_eq!(results.len(), 1);
}

#[test]
fn test_concurrent_transactions() {
    let (mut engine1, _) = HeapEngine::create(2).unwrap();
    let (mut engine2, _) = HeapEngine::create(2).unwrap();

    engine1.begin();
    engine1.insert(b"tx1_data").unwrap();

    engine2.begin();
    let results = engine2.scan().unwrap();
    assert_eq!(results.len(), 0);

    engine1.commit();

    engine2.commit();
}

#[test]
fn test_large_data_insert() {
    let (mut heap, _) = HeapRelation::create(1).unwrap();

    let large_data = vec![0u8; 1000];
    let ctid = heap
        .insert(TransactionId(100), CommandId(1), &large_data)
        .unwrap();

    let retrieved = heap.get(ctid).unwrap().unwrap();
    assert_eq!(retrieved.data.len(), 1000);
}

#[test]
fn test_multiple_pages_insert() {
    let (mut heap, _) = HeapRelation::create(1).unwrap();

    for i in 0..100u32 {
        let data = format!("data_{}", i);
        heap.insert(TransactionId(100 + i), CommandId(1), data.as_bytes())
            .unwrap();
    }

    let page_count = heap.relation.page_count();
    assert!(page_count >= 1);
}
