use heap_engine::{
    CommandId, HeapEngine, HeapError, HeapRelation, HeapTuple, ItemPointerData, Page, Snapshot,
    TransactionId, VisibilityMode,
};

fn ptr(block: u32, offset: u16) -> ItemPointerData {
    ItemPointerData {
        block_number: block,
        offset_number: offset,
    }
}

#[test]
fn insert_get_round_trip() {
    let (mut engine, _) = HeapEngine::create(2).unwrap();
    let tx = engine.begin();
    assert_eq!(tx.xid, TransactionId(2));
    assert_eq!(tx.cid, CommandId(1));

    let ctid = engine.insert(b"hello").unwrap();
    assert_eq!(ctid, ptr(0, 1));

    let tuple = engine.get(ptr(0, 1)).unwrap().unwrap();
    assert_eq!(tuple.header.t_xmin, 2);
    assert_eq!(tuple.header.t_xmax, 0);
    assert_eq!(tuple.header.t_cid, 1);
    assert_eq!(tuple.header.t_ctid, ptr(0, 1));
    assert_eq!(tuple.header.t_infomask, 0);
    assert_eq!(tuple.header.natts(), 2);
    assert_eq!(tuple.data, b"hello".to_vec());
}

#[test]
fn scan_sees_own_write() {
    let (mut engine, _) = HeapEngine::create(2).unwrap();
    engine.begin();
    engine.insert(b"hello").unwrap();

    let rows = engine.scan().unwrap();
    assert_eq!(rows.len(), 1);
    assert_eq!(rows[0].0, ptr(0, 1));
    assert_eq!(rows[0].1.data, b"hello".to_vec());
}

#[test]
fn other_transaction_isolation() {
    let (mut heap, _) = HeapRelation::create(2).unwrap();
    let t1 = heap.tx_manager.begin();
    let cid = heap.tx_manager.get_cid();
    assert_eq!(heap.insert(t1, cid, b"hello").unwrap(), ptr(0, 1));

    // A reader whose snapshot was captured while the writer was in progress.
    let captured = heap.tx_manager.get_snapshot(CommandId(1));
    assert_eq!(captured.xmin, TransactionId(2));
    assert_eq!(captured.xmax, TransactionId(3));
    assert_eq!(captured.xip, vec![TransactionId(2)]);
    let t2 = heap.tx_manager.begin();
    assert_eq!(t2, TransactionId(3));
    assert_eq!(heap.scan(&captured, t2).unwrap().len(), 0);
    let literal = Snapshot::new(2, 3, vec![2], 1, VisibilityMode::MVCC);
    assert_eq!(heap.scan(&literal, t2).unwrap().len(), 0);

    heap.tx_manager.commit(t1);
    // The old snapshot still hides the write; a new one shows it.
    assert_eq!(heap.scan(&captured, t2).unwrap().len(), 0);
    heap.tx_manager.commit(t2);
    let t3 = heap.tx_manager.begin();
    let fresh = Snapshot::new(3, 4, vec![], 1, VisibilityMode::MVCC);
    let rows = heap.scan(&fresh, t3).unwrap();
    assert_eq!(rows.len(), 1);
    assert_eq!(rows[0].1.data, b"hello".to_vec());
}

#[test]
fn update_chain() {
    let (mut heap, _) = HeapRelation::create(2).unwrap();
    let xid = heap.tx_manager.begin();
    let cid = heap.tx_manager.get_cid();
    let ctid0 = heap.insert(xid, cid, b"a").unwrap();
    let ctid1 = heap.update(xid, cid, ctid0, b"b").unwrap().unwrap();
    assert_eq!(ctid0, ptr(0, 1));
    assert_eq!(ctid1, ptr(0, 2));

    let old = heap.get(ctid0).unwrap().unwrap();
    assert_eq!(old.header.t_xmax, xid.0);
    assert_eq!(old.header.t_ctid, ctid1);
    assert_eq!(old.header.t_xmin, xid.0);
    assert_eq!(old.data, b"a".to_vec());

    let new = heap.get(ctid1).unwrap().unwrap();
    assert_eq!(new.header.t_xmin, xid.0);
    assert_eq!(new.header.t_xmax, 0);
    assert_eq!(new.header.t_ctid, ctid1);
    assert_eq!(new.data, b"b".to_vec());
}

#[test]
fn update_across_pages_keeps_the_chain() {
    let (mut heap, _) = HeapRelation::create(1).unwrap();
    let first = heap
        .insert(TransactionId(2), CommandId(1), &vec![7u8; 8000])
        .unwrap();
    assert_eq!(first, ptr(0, 1));
    let second = heap
        .update(TransactionId(3), CommandId(2), first, &vec![8u8; 8000])
        .unwrap()
        .unwrap();
    assert_eq!(second, ptr(1, 1));
    assert_eq!(heap.relation.page_count(), 2);
    let old = heap.get(first).unwrap().unwrap();
    assert_eq!(old.header.t_xmax, 3);
    assert_eq!(old.header.t_cid, 2);
    assert_eq!(old.header.t_ctid, second);
    let new = heap.get(second).unwrap().unwrap();
    assert_eq!(new.header.t_xmin, 3);
    assert_eq!(new.header.t_xmax, 0);
    assert_eq!(new.data, vec![8u8; 8000]);
}

#[test]
fn update_of_an_obsolete_tuple_is_a_conflict() {
    let (mut heap, _) = HeapRelation::create(2).unwrap();
    let ctid = heap.insert(TransactionId(2), CommandId(1), b"a").unwrap();
    assert!(heap.delete(TransactionId(3), CommandId(1), ctid).unwrap());
    let before = heap.relation.read_page(0).unwrap().item_count();
    assert_eq!(
        heap.update(TransactionId(4), CommandId(1), ctid, b"b").unwrap(),
        None
    );
    assert_eq!(heap.relation.read_page(0).unwrap().item_count(), before);
    assert_eq!(heap.get(ctid).unwrap().unwrap().header.t_xmax, 3);
}

#[test]
fn delete_idempotence() {
    let (mut heap, _) = HeapRelation::create(2).unwrap();
    let ctid = heap.insert(TransactionId(2), CommandId(1), b"x").unwrap();
    assert!(heap.delete(TransactionId(2), CommandId(1), ctid).unwrap());
    assert!(!heap.delete(TransactionId(2), CommandId(1), ctid).unwrap());
    assert!(!heap.delete(TransactionId(9), CommandId(4), ctid).unwrap());
    let tuple = heap.get(ctid).unwrap().unwrap();
    assert_ne!(tuple.header.t_xmax, 0);
    assert_eq!(tuple.header.t_xmax, 2);
    assert_eq!(tuple.header.t_cid, 1);
    assert_eq!(tuple.data, b"x".to_vec());
}

#[test]
fn vacuum_reclaims_committed_deletes() {
    let (mut engine, _) = HeapEngine::create(2).unwrap();
    engine.begin();
    let mut ctids = Vec::new();
    for i in 0..10u8 {
        ctids.push(engine.insert(&[i; 40]).unwrap());
    }
    for ctid in ctids.iter() {
        assert!(engine.delete(*ctid).unwrap());
    }
    let free_before = engine.heap.relation.read_page(0).unwrap().free_space();

    // Nothing is reclaimed while the deleter is in progress.
    assert_eq!(engine.vacuum().unwrap(), 0);
    engine.commit();

    assert_eq!(engine.vacuum().unwrap(), 10);
    assert_eq!(engine.scan().unwrap().len(), 0);
    let page = engine.heap.relation.read_page(0).unwrap();
    assert!(page.free_space() > free_before);
    assert_eq!(page.free_space(), 8192 - 24 - 40);
    assert_eq!(page.dead_items(), (1..=10).collect::<Vec<u16>>());
    for ctid in ctids.iter() {
        assert!(engine.get(*ctid).unwrap().is_none());
    }
    assert_eq!(engine.vacuum().unwrap(), 0);
}

#[test]
fn vacuum_spares_what_a_transaction_in_progress_may_see() {
    let (mut heap, _) = HeapRelation::create(1).unwrap();
    let reader = heap.tx_manager.begin();
    let writer = heap.tx_manager.begin();
    let kept = heap.insert(writer, CommandId(1), b"kept").unwrap();
    let gone = heap.insert(writer, CommandId(1), b"gone").unwrap();
    assert!(heap.delete(writer, CommandId(2), gone).unwrap());
    heap.tx_manager.commit(writer);

    // The deleter committed, but an older transaction is still in progress.
    assert_eq!(heap.vacuum().unwrap(), 0);
    assert!(heap.get(gone).unwrap().is_some());

    heap.tx_manager.commit(reader);
    assert_eq!(heap.vacuum().unwrap(), 1);
    assert!(heap.get(gone).unwrap().is_none());
    assert_eq!(heap.get(kept).unwrap().unwrap().data, b"kept".to_vec());
}

#[test]
fn vacuum_spares_aborted_deletes() {
    let (mut heap, _) = HeapRelation::create(1).unwrap();
    let ctid = heap.insert(TransactionId(2), CommandId(1), b"row").unwrap();
    let deleter = heap.tx_manager.begin();
    assert!(heap.delete(deleter, CommandId(1), ctid).unwrap());
    heap.tx_manager.abort(deleter);
    assert_eq!(heap.vacuum().unwrap(), 0);
    assert!(heap.get(ctid).unwrap().is_some());
}

#[test]
fn insert_fills_the_first_page_with_room() {
    let (mut heap, _) = HeapRelation::create(1).unwrap();
    // 24 header bytes, 4000 payload bytes and an item identifier per tuple.
    let a = heap.insert(TransactionId(2), CommandId(1), &[1u8; 4000]).unwrap();
    let b = heap.insert(TransactionId(2), CommandId(1), &[2u8; 4000]).unwrap();
    let c = heap.insert(TransactionId(2), CommandId(1), &[3u8; 4000]).unwrap();
    let d = heap.insert(TransactionId(2), CommandId(1), &[4u8; 80]).unwrap();
    assert_eq!(a, ptr(0, 1));
    assert_eq!(b, ptr(0, 2));
    assert_eq!(c, ptr(1, 1));
    assert_eq!(d, ptr(0, 3));
    assert_eq!(heap.relation.page_count(), 2);
    assert_eq!(
        heap.relation.read_page(0).unwrap().free_space(),
        8168 - 2 * (4024 + 4) - (104 + 4)
    );
}

#[test]
fn insert_too_large_for_a_page_fails() {
    let (mut heap, _) = HeapRelation::create(1).unwrap();
    // An empty page has 8168 free bytes; the tuple needs 24 + n + 4.
    assert!(heap
        .insert(TransactionId(2), CommandId(1), &vec![0u8; 8140])
        .is_ok());
    let r = heap.insert(TransactionId(2), CommandId(1), &vec![0u8; 8141]);
    assert!(matches!(r, Err(HeapError::NoFreeSpace)));
    // The block that was allocated for the tuple stays.
    assert_eq!(heap.relation.page_count(), 2);
}

#[test]
fn operations_surface_the_failing_read() {
    let (mut heap, _) = HeapRelation::create(1).unwrap();
    heap.insert(TransactionId(2), CommandId(1), b"row").unwrap();
    assert!(matches!(
        heap.get(ptr(5, 1)),
        Err(HeapError::PageNotFound(5))
    ));
    assert!(matches!(
        heap.delete(TransactionId(2), CommandId(1), ptr(5, 1)),
        Err(HeapError::PageNotFound(5))
    ));
    assert!(matches!(
        heap.update(TransactionId(2), CommandId(1), ptr(5, 1), b"x"),
        Err(HeapError::PageNotFound(5))
    ));
    assert!(heap.get(ptr(0, 2)).unwrap().is_none());
    assert!(heap.get(ptr(0, 0)).unwrap().is_none());
    assert!(matches!(
        heap.delete(TransactionId(2), CommandId(1), ptr(0, 2)),
        Err(HeapError::InvalidTuple(_))
    ));
    assert!(matches!(
        heap.update(TransactionId(2), CommandId(1), ptr(0, 2), b"x"),
        Err(HeapError::InvalidTuple(_))
    ));

    // A gap in the blocks fails a scan, a vacuum and an insert that has to
    // look past it.
    let mut page = Page::new(8192);
    page.add_item(&[0u8; 8000]).unwrap();
    heap.relation.write_page(0, &page).unwrap();
    heap.relation.write_page(2, &Page::new(8192)).unwrap();
    assert_eq!(heap.relation.page_count(), 3);
    let snapshot = Snapshot::new(1, 100, vec![], 1, VisibilityMode::MVCC);
    assert!(matches!(
        heap.scan(&snapshot, TransactionId(2)),
        Err(HeapError::PageNotFound(1))
    ));
    assert!(matches!(heap.vacuum(), Err(HeapError::PageNotFound(1))));
    assert!(matches!(
        heap.insert(TransactionId(2), CommandId(1), &[0u8; 500]),
        Err(HeapError::PageNotFound(1))
    ));
}

#[test]
fn short_items_are_no_tuples() {
    let (mut heap, _) = HeapRelation::create(1).unwrap();
    let mut page = Page::new(8192);
    page.add_item(b"short").unwrap();
    heap.relation.write_page(0, &page).unwrap();
    assert!(matches!(
        heap.get(ptr(0, 1)),
        Err(HeapError::InvalidTuple(_))
    ));
    assert!(matches!(
        heap.delete(TransactionId(2), CommandId(1), ptr(0, 1)),
        Err(HeapError::InvalidTuple(_))
    ));
    let snapshot = Snapshot::new(1, 100, vec![], 1, VisibilityMode::Any);
    assert_eq!(heap.scan(&snapshot, TransactionId(2)).unwrap().len(), 0);
    assert_eq!(heap.vacuum().unwrap(), 0);
}

#[test]
fn engine_needs_a_transaction_to_write() {
    let (mut engine, _) = HeapEngine::create(2).unwrap();
    assert!(matches!(
        engine.insert(b"row"),
        Err(HeapError::InvalidTransaction(_))
    ));
    assert!(matches!(
        engine.update(ptr(0, 1), b"row"),
        Err(HeapError::InvalidTransaction(_))
    ));
    assert!(matches!(
        engine.delete(ptr(0, 1)),
        Err(HeapError::InvalidTransaction(_))
    ));
    assert_eq!(engine.scan().unwrap().len(), 0);

    engine.begin();
    let ctid = engine.insert(b"row").unwrap();
    engine.abort();
    assert!(engine.current_tx.is_none());
    assert!(matches!(
        engine.delete(ctid),
        Err(HeapError::InvalidTransaction(_))
    ));
    assert!(!engine.heap.tx_manager.is_committed(TransactionId(2)));
    assert!(engine.get(ctid).unwrap().is_some());
}

#[test]
fn scan_orders_rows_by_block_then_slot() {
    let (mut heap, _) = HeapRelation::create(1).unwrap();
    let mut expected = Vec::new();
    for i in 0..5u8 {
        expected.push(
            heap.insert(TransactionId(2), CommandId(1), &vec![i; 3000])
                .unwrap(),
        );
    }
    assert_eq!(
        expected,
        vec![ptr(0, 1), ptr(0, 2), ptr(1, 1), ptr(1, 2), ptr(2, 1)]
    );
    assert!(heap
        .delete(TransactionId(2), CommandId(1), ptr(1, 1))
        .unwrap());
    let snapshot = Snapshot::new(1, 100, vec![], 1, VisibilityMode::MVCC);
    let rows = heap.scan(&snapshot, TransactionId(2)).unwrap();
    let found: Vec<ItemPointerData> = rows.iter().map(|r| r.0).collect();
    assert_eq!(found, vec![ptr(0, 1), ptr(0, 2), ptr(1, 2), ptr(2, 1)]);
    assert_eq!(rows[2].1.data, vec![3u8; 3000]);

    let any = Snapshot::new(1, 100, vec![], 1, VisibilityMode::Any);
    assert_eq!(heap.scan(&any, TransactionId(2)).unwrap().len(), 5);
}

#[test]
fn open_loads_what_was_written() {
    let (mut heap, _) = HeapRelation::create(2).unwrap();
    let ctid = heap.insert(TransactionId(2), CommandId(1), b"kept").unwrap();
    let pending = heap.relation.storage.take_pending();
    assert_eq!(pending, vec![0, 0]);
    let image = heap.relation.storage.page_image(0).unwrap();

    let reopened = HeapRelation::open(vec![(0, image)], 2).unwrap();
    assert_eq!(reopened.relation.page_count(), 1);
    assert_eq!(reopened.get(ctid).unwrap().unwrap().data, b"kept".to_vec());

    let empty = HeapEngine::open(Vec::new(), 2).unwrap();
    assert_eq!(empty.heap.relation.page_count(), 1);
    assert_eq!(empty.scan().unwrap().len(), 0);

    assert!(matches!(
        HeapRelation::open(vec![(u32::MAX, vec![0u8; 8192])], 2),
        Err(HeapError::StorageError(_))
    ));
    let corrupt = HeapRelation::open(vec![(0, vec![0u8; 8192])], 2).unwrap();
    assert!(matches!(
        corrupt.get(ctid),
        Err(HeapError::InvalidPage(_))
    ));
}

#[test]
fn close_and_drop() {
    let (mut engine, _) = HeapEngine::create(2).unwrap();
    engine.begin();
    engine.insert(&[1u8; 8000]).unwrap();
    engine.insert(&[2u8; 8000]).unwrap();
    engine.heap.relation.storage.take_pending();
    engine.close().unwrap();
    assert_eq!(engine.heap.relation.storage.take_pending(), vec![0, 1]);
    engine.drop().unwrap();
    assert_eq!(engine.heap.relation.page_count(), 0);
    assert!(matches!(
        engine.get(ptr(0, 1)),
        Err(HeapError::PageNotFound(0))
    ));
}

#[test]
fn every_item_of_a_heap_page_decodes_as_a_tuple() {
    let (mut engine, _) = HeapEngine::create(3).unwrap();
    engine.begin();
    let mut ctids = Vec::new();
    for i in 0..300u32 {
        ctids.push(engine.insert(&vec![(i % 251) as u8; (i % 90) as usize]).unwrap());
    }
    for (i, ctid) in ctids.iter().enumerate() {
        if i % 3 == 0 {
            assert!(engine.delete(*ctid).unwrap());
        } else if i % 3 == 1 {
            assert!(engine.update(*ctid, b"next").unwrap().is_some());
        }
    }
    engine.commit();
    assert_eq!(engine.vacuum().unwrap(), 200);

    let pages = engine.heap.relation.page_count();
    assert!(pages >= 3);
    let mut live = 0;
    for block in 0..pages {
        let page = engine.heap.relation.read_page(block).unwrap();
        assert!(page.is_valid());
        for slot in 1..=page.item_count() as u16 {
            if let Some(bytes) = page.get_item(slot) {
                assert!(bytes.len() >= 24);
                let tuple = HeapTuple::deserialize(bytes, 3).unwrap();
                assert_eq!(tuple.header.t_hoff % 8, 0);
                assert!(24 <= tuple.header.t_hoff as usize);
                assert!(tuple.header.t_hoff as usize <= bytes.len());
                assert_eq!(tuple.header.t_xmin, 2);
                assert_eq!(tuple.header.t_xmax, 0);
                assert_eq!(tuple.header.t_ctid, ptr(block, slot));
                live += 1;
            }
        }
    }
    assert_eq!(live, 200);
    assert_eq!(engine.scan().unwrap().len(), 200);
}

#[test]
fn vacuum_spares_what_a_held_snapshot_may_reach() {
    let (mut heap, _) = HeapRelation::create(2).unwrap();
    let creator = heap.tx_manager.begin();
    assert_eq!(creator, TransactionId(2));
    let ctid = heap.insert(creator, CommandId(1), b"row").unwrap();
    heap.tx_manager.commit(creator);

    let deleter = heap.tx_manager.begin();
    let reader = heap.tx_manager.begin();
    assert_eq!((deleter, reader), (TransactionId(3), TransactionId(4)));
    assert!(heap.delete(deleter, CommandId(2), ctid).unwrap());
    let held = heap.tx_manager.get_snapshot(CommandId(3));
    assert_eq!(held.xmin, TransactionId(3));
    heap.tx_manager.commit(deleter);

    // The deleter committed and is older than the one transaction still in
    // progress, but that transaction holds a snapshot that reaches down to
    // the deleter.
    assert_eq!(heap.vacuum().unwrap(), 0);
    let kept = heap.get(ctid).unwrap().unwrap();
    assert_eq!(kept.header.t_xmax, 3);
    assert_eq!(kept.data, b"row".to_vec());

    heap.tx_manager.commit(reader);
    assert_eq!(heap.vacuum().unwrap(), 1);
    assert!(heap.get(ctid).unwrap().is_none());
}
