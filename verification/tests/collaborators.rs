use heap_engine::{
    BTreeIndex, BTreeKey, BTreePage, FreeSpaceMap, HeapError, ItemPointerData, Page, Relation,
    Storage, ToastPointer, ToastTable, TransactionId, CommandId, VisibilityMap, XLogRecord,
    XLogRecordType, WAL,
};

fn ptr(block: u32, offset: u16) -> ItemPointerData {
    ItemPointerData {
        block_number: block,
        offset_number: offset,
    }
}

#[test]
fn storage_keeps_pages_and_the_high_water_mark() {
    let mut storage = Storage::new().unwrap();
    assert_eq!(storage.page_count(), 0);
    assert!(matches!(
        storage.read_page(0),
        Err(HeapError::PageNotFound(0))
    ));
    assert_eq!(storage.allocate_page().unwrap(), 1);
    assert_eq!(storage.page_count(), 2);
    assert!(matches!(
        storage.read_page(0),
        Err(HeapError::PageNotFound(0))
    ));
    assert_eq!(storage.read_page(1).unwrap().free_space(), 8168);

    let mut page = Page::new(8192);
    page.add_item(b"block seven").unwrap();
    storage.write_page(7, &page).unwrap();
    assert_eq!(storage.page_count(), 8);
    assert_eq!(storage.allocate_page().unwrap(), 8);
    assert_eq!(storage.read_page(7).unwrap().get_item(1).unwrap(), b"block seven");
    assert_eq!(storage.page_image(7).unwrap(), page.serialize());
    assert!(storage.page_image(3).is_none());
    assert_eq!(storage.take_pending(), vec![1, 7, 8]);
    assert_eq!(storage.take_pending(), Vec::<u32>::new());
    storage.flush().unwrap();
    assert_eq!(storage.take_pending(), vec![1, 7, 8]);
    storage.drop_all().unwrap();
    assert_eq!(storage.page_count(), 0);
}

#[test]
fn storage_takes_in_a_block_found_on_a_miss() {
    let mut storage = Storage::new().unwrap();
    storage.write_page(0, &Page::new(8192)).unwrap();
    storage.take_pending();
    assert!(matches!(
        storage.read_page(3),
        Err(HeapError::PageNotFound(3))
    ));

    let mut page = Page::new(8192);
    page.add_item(b"found").unwrap();
    assert!(storage.load_block(3, page.serialize()));
    assert_eq!(storage.read_page(3).unwrap().get_item(1).unwrap(), b"found");
    // The block counts from now on, and nothing is pending for it.
    assert_eq!(storage.page_count(), 4);
    assert_eq!(storage.take_pending(), Vec::<u32>::new());
    assert_eq!(storage.allocate_page().unwrap(), 4);

    // A block that is held is not replaced.
    assert!(!storage.load_block(3, Page::new(8192).serialize()));
    assert_eq!(storage.read_page(3).unwrap().item_count(), 1);
    assert!(!storage.load_block(0, vec![0u8; 10]));
    assert!(storage.read_page(0).is_ok());

    storage.take_pending();
    storage.flush().unwrap();
    assert_eq!(storage.take_pending(), vec![0, 3, 4]);
}

#[test]
fn storage_open_takes_the_highest_block() {
    let image = Page::new(8192).serialize();
    let storage = Storage::open(vec![
        (4, image.clone()),
        (2, image.clone()),
        (4, vec![1, 2, 3]),
    ])
    .unwrap();
    assert_eq!(storage.page_count(), 5);
    assert!(storage.read_page(2).is_ok());
    assert!(matches!(
        storage.read_page(4),
        Err(HeapError::InvalidPage(_))
    ));
    assert!(matches!(
        storage.read_page(0),
        Err(HeapError::PageNotFound(0))
    ));
    assert!(matches!(
        Storage::open(vec![(u32::MAX, image)]),
        Err(HeapError::StorageError(_))
    ));
}

#[test]
fn block_file_names() {
    assert_eq!(Storage::file_name_of(0), b"0.dat".to_vec());
    assert_eq!(Storage::file_name_of(1207), b"1207.dat".to_vec());
    assert_eq!(Storage::file_name_of(u32::MAX), b"4294967295.dat".to_vec());
    assert_eq!(Storage::block_of(b"0.dat"), Some(0));
    assert_eq!(Storage::block_of(b"1207.dat"), Some(1207));
    assert_eq!(Storage::block_of(b"007.dat"), Some(7));
    assert_eq!(Storage::block_of(b"+12.dat"), Some(12));
    assert_eq!(Storage::block_of(b"4294967295.dat"), Some(u32::MAX));
    assert_eq!(Storage::block_of(b"4294967296.dat"), None);
    assert_eq!(Storage::block_of(b"99999999999999999999999.dat"), None);
    assert_eq!(Storage::block_of(b".dat"), None);
    assert_eq!(Storage::block_of(b"+.dat"), None);
    assert_eq!(Storage::block_of(b"12.wal"), None);
    assert_eq!(Storage::block_of(b"12.dat.bak"), None);
    assert_eq!(Storage::block_of(b"1a.dat"), None);
    assert_eq!(Storage::block_of(b"-1.dat"), None);
    assert_eq!(Storage::block_of(b"12"), None);
    for n in [0u32, 9, 10, 99, 100, 65535, 4_000_000_000] {
        assert_eq!(Storage::block_of(&Storage::file_name_of(n)), Some(n));
    }
}

#[test]
fn relation_create_and_open() {
    let (mut relation, rel_node) = Relation::create(4).unwrap();
    assert_eq!(relation.rel_node, rel_node);
    assert_eq!(relation.natts, 4);
    assert_eq!(relation.page_count(), 1);
    assert_eq!(relation.read_page(0).unwrap().item_count(), 0);
    assert_eq!(relation.allocate_page().unwrap(), 1);
    assert_eq!(relation.page_count(), 2);
    relation.close().unwrap();
    relation.drop().unwrap();
    assert_eq!(relation.page_count(), 0);

    let opened = Relation::open(Vec::new()).unwrap();
    assert_eq!(opened.rel_node, 0);
    assert_eq!(opened.natts, 0);
    assert_eq!(opened.page_count(), 1);

    let (other, other_node) = Relation::create(4).unwrap();
    // Node ids are drawn at random: two in a row differ.
    assert_ne!(rel_node, other_node);
    assert_eq!(other.db_node, 0);
    assert_eq!(other.spc_node, 0);
}

#[test]
fn free_space_map() {
    let mut fsm = FreeSpaceMap::new(8192);
    assert_eq!(fsm.find_page_with_space(0), None);
    fsm.update(3, 100).unwrap();
    fsm.update(9, 500).unwrap();
    fsm.update(5, 500).unwrap();
    fsm.update(1, 31).unwrap();
    fsm.update(2, 32).unwrap();
    assert_eq!(fsm.get_free_space(3), 100);
    assert_eq!(fsm.get_free_space(1), 0);
    assert_eq!(fsm.get_free_space(2), 32);
    assert_eq!(fsm.get_free_space(77), 0);
    assert_eq!(fsm.find_page_with_space(50), Some(5));
    assert_eq!(fsm.find_page_with_space(500), Some(5));
    assert_eq!(fsm.find_page_with_space(501), None);
    fsm.update(5, 10).unwrap();
    assert_eq!(fsm.find_page_with_space(50), Some(9));
    let all = fsm.get_all_free_space();
    assert_eq!(all.len(), 5);
    assert_eq!(all[&5], 0);
    assert_eq!(all[&9], 500);
}

#[test]
fn visibility_map() {
    let mut vm = VisibilityMap::new();
    assert!(!vm.is_all_visible(0));
    vm.set_all_visible(0, true).unwrap();
    vm.set_all_visible(9, true).unwrap();
    vm.set_all_visible(8191, true).unwrap();
    vm.set_all_visible(8192, true).unwrap();
    vm.set_all_visible(100_000, true).unwrap();
    assert!(vm.is_all_visible(0));
    assert!(!vm.is_all_visible(1));
    assert!(vm.is_all_visible(9));
    assert!(vm.is_all_visible(8191));
    assert!(vm.is_all_visible(8192));
    assert_eq!(vm.get_visible_blocks(10_000), vec![0, 9, 8191, 8192]);
    assert_eq!(vm.get_visible_blocks(9), vec![0]);
    vm.set_page_dirty(9).unwrap();
    vm.set_all_visible(8192, false).unwrap();
    assert!(!vm.is_all_visible(9));
    assert_eq!(vm.get_visible_blocks(200_000), vec![0, 8191, 100_000]);
}

#[test]
fn wal_record_image_is_byte_exact() {
    let mut record = XLogRecord::new(7, XLogRecordType::HeapDelete, 9, b"pay".to_vec());
    record.lsn = 0x0102;
    record.prev_lsn = 0x0A0B0C;
    assert_eq!(record.size(), 28);
    let image = record.serialize();
    let expected: Vec<u8> = vec![
        0x0C, 0x0B, 0x0A, 0, 0, 0, 0, 0, // previous lsn
        0x02, 0x01, 0, 0, 0, 0, 0, 0, // lsn
        3, // type
        7, 0, 0, 0, // transaction
        9, 0, 0, 0, // block
        b'p', b'a', b'y',
    ];
    assert_eq!(image, expected);

    let back = XLogRecord::deserialize(&image).unwrap();
    assert_eq!(back.lsn, 0x0102);
    assert_eq!(back.prev_lsn, 0x0A0B0C);
    assert_eq!(back.txid, 7);
    assert_eq!(back.block_id, 9);
    assert_eq!(back.record_type, XLogRecordType::HeapDelete);
    assert_eq!(back.data, b"pay".to_vec());
}

#[test]
fn wal_record_types_round_trip() {
    let types = [
        XLogRecordType::HeapInsert,
        XLogRecordType::HeapUpdate,
        XLogRecordType::HeapDelete,
        XLogRecordType::HeapVacuum,
        XLogRecordType::TransactionCommit,
        XLogRecordType::TransactionAbort,
        XLogRecordType::Checkpoint,
    ];
    for (i, t) in types.iter().enumerate() {
        let image = XLogRecord::new(1, *t, 2, Vec::new()).serialize();
        assert_eq!(image.len(), 25);
        assert_eq!(image[16] as usize, i + 1);
        assert_eq!(XLogRecord::deserialize(&image).unwrap().record_type, *t);
    }
}

#[test]
fn wal_record_errors() {
    assert!(matches!(
        XLogRecord::deserialize(&[0u8; 16]),
        Err(HeapError::CorruptedData(_))
    ));
    let mut image = XLogRecord::new(1, XLogRecordType::Checkpoint, 2, Vec::new()).serialize();
    assert!(matches!(
        XLogRecord::deserialize(&image[..24]),
        Err(HeapError::CorruptedData(_))
    ));
    image[16] = 0;
    assert!(matches!(
        XLogRecord::deserialize(&image),
        Err(HeapError::CorruptedData(_))
    ));
    image[16] = 8;
    assert!(XLogRecord::deserialize(&image).is_err());
}

#[test]
fn wal_bookkeeping() {
    let mut wal = WAL::new().unwrap();
    assert_eq!(wal.get_lsn(), 0);
    assert_eq!(wal.segment_file(), b"00000000.wal".to_vec());
    let record = XLogRecord::new(1, XLogRecordType::HeapInsert, 0, vec![0u8; 75]);
    assert_eq!(wal.append(&record).unwrap(), 100);
    assert_eq!(wal.append(&record).unwrap(), 200);
    assert_eq!(wal.get_lsn(), 200);
    assert_eq!(wal.flush(1).unwrap(), 0);
    let position = wal.position();
    assert_eq!((position.lsn, position.segment, position.offset), (200, 0, 200));
    assert_eq!(WAL::segment_of(16 * 1024 * 1024 - 1), 0);
    assert_eq!(WAL::segment_of(16 * 1024 * 1024), 1);
    assert_eq!(WAL::offset_in_segment(16 * 1024 * 1024 + 5), 5);

    let big = XLogRecord::new(1, XLogRecordType::HeapInsert, 0, vec![0u8; 16 * 1024 * 1024]);
    wal.append(&big).unwrap();
    for _ in 0..10 {
        wal.append(&big).unwrap();
    }
    assert_eq!(wal.position().segment, 11);
    assert_eq!(wal.segment_file(), b"0000000B.wal".to_vec());
}

#[test]
fn wal_recovery_reads_one_record_per_buffer() {
    let wal = WAL::new().unwrap();
    let first = XLogRecord::new(1, XLogRecordType::HeapInsert, 3, b"abc".to_vec()).serialize();
    let second = XLogRecord::new(2, XLogRecordType::TransactionCommit, 0, Vec::new()).serialize();
    let mut both = first.clone();
    both.extend_from_slice(&second);

    let records = wal
        .recover(&vec![both.clone(), vec![0u8; 40], second.clone(), vec![1u8; 10]])
        .unwrap();
    // A record takes everything past its fixed part as payload.
    assert_eq!(records.len(), 2);
    assert_eq!(records[0].txid, 1);
    assert_eq!(records[0].data.len(), 3 + 25);
    assert_eq!(&records[0].data[..3], b"abc");
    assert_eq!(records[1].txid, 2);
    assert_eq!(records[1].record_type, XLogRecordType::TransactionCommit);
    assert_eq!(WAL::records_of(&both).len(), 1);
    assert_eq!(WAL::records_of(&[]).len(), 0);
}

#[test]
fn btree_page_image_is_byte_exact() {
    let mut page = BTreePage::new(false);
    page.is_root = true;
    page.left_sibling = 1;
    page.right_sibling = 0x01020304;
    page.keys.push(BTreeKey::new(b"ab".to_vec(), ptr(5, 6)));
    page.children.push(9);
    page.children.push(10);
    assert_eq!(page.size(), 10 + (2 + 8) + 8);
    let image = page.serialize();
    let expected: Vec<u8> = vec![
        0, 1, // inner page, root
        1, 0, 0, 0, // left sibling
        4, 3, 2, 1, // right sibling
        1, 0, // one key
        2, 0, b'a', b'b', 5, 0, 0, 0, 6, 0, // the key
        2, 0, // two children
        9, 0, 0, 0, 10, 0, 0, 0,
    ];
    assert_eq!(image, expected);

    let back = BTreePage::deserialize(&image).unwrap();
    assert!(!back.is_leaf);
    assert!(back.is_root);
    assert_eq!(back.left_sibling, 1);
    assert_eq!(back.right_sibling, 0x01020304);
    assert_eq!(back.keys.len(), 1);
    assert_eq!(back.keys[0].key, b"ab".to_vec());
    assert_eq!(back.keys[0].ctid, ptr(5, 6));
    assert_eq!(back.children, vec![9, 10]);
}

#[test]
fn btree_page_reader_stops_where_the_image_ends() {
    assert!(matches!(
        BTreePage::deserialize(&[0u8; 9]),
        Err(HeapError::CorruptedData(_))
    ));
    let bare = BTreePage::deserialize(&[1u8; 10]).unwrap();
    assert!(bare.is_leaf);
    assert!(bare.keys.is_empty());
    assert!(bare.children.is_empty());

    // A leaf that ends right after its last key: the reader wants eight
    // bytes after a key and finds six.
    let mut leaf = BTreePage::new(true);
    leaf.keys.push(BTreeKey::new(b"k1".to_vec(), ptr(1, 1)));
    leaf.keys.push(BTreeKey::new(b"k2".to_vec(), ptr(2, 2)));
    let image = leaf.serialize();
    let back = BTreePage::deserialize(&image).unwrap();
    assert_eq!(back.keys.len(), 1);
    assert_eq!(back.keys[0].key, b"k1".to_vec());
    let mut padded = image.clone();
    padded.extend_from_slice(&[0, 0]);
    assert_eq!(BTreePage::deserialize(&padded).unwrap().keys.len(), 2);

    // An inner page whose children are cut off.
    let mut inner = BTreePage::new(false);
    inner.children = vec![1, 2, 3];
    let image = inner.serialize();
    let cut = BTreePage::deserialize(&image[..image.len() - 2]).unwrap();
    assert_eq!(cut.children, vec![1, 2]);
}

#[test]
fn btree_index_finds_what_was_inserted() {
    let (mut index, _) = BTreeIndex::create().unwrap();
    assert_eq!(index.search(b"a").unwrap(), Vec::new());
    index.insert(b"a".to_vec(), ptr(0, 1)).unwrap();
    index.insert(b"b".to_vec(), ptr(0, 2)).unwrap();
    index.insert(b"a".to_vec(), ptr(3, 4)).unwrap();
    assert_eq!(index.key_count(), 3);
    assert_eq!(index.search(b"a").unwrap(), vec![ptr(0, 1), ptr(3, 4)]);
    assert_eq!(index.search(b"b").unwrap(), vec![ptr(0, 2)]);
    assert_eq!(index.search(b"c").unwrap(), Vec::new());
    assert_eq!(
        index.scan().unwrap(),
        vec![
            (b"a".to_vec(), ptr(0, 1)),
            (b"b".to_vec(), ptr(0, 2)),
            (b"a".to_vec(), ptr(3, 4)),
        ]
    );
    assert!(index.delete(b"a").unwrap());
    assert!(!index.delete(b"a").unwrap());
    assert!(!index.delete(b"zz").unwrap());
    assert_eq!(index.search(b"a").unwrap(), Vec::new());
    assert_eq!(index.scan().unwrap(), vec![(b"b".to_vec(), ptr(0, 2))]);

    let opened = BTreeIndex::open(Vec::new()).unwrap();
    assert_eq!(opened.key_count(), 0);

    let one = BTreeKey::new(b"k".to_vec(), ptr(1, 1));
    assert!(one.same_key(&BTreeKey::new(b"k".to_vec(), ptr(2, 2))));
    assert!(!one.same_key(&BTreeKey::new(b"kk".to_vec(), ptr(1, 1))));
}

#[test]
fn btree_index_needs_its_root_page() {
    let (mut index, _) = BTreeIndex::create().unwrap();
    index.relation.drop().unwrap();
    assert!(matches!(
        index.insert(b"a".to_vec(), ptr(0, 1)),
        Err(HeapError::PageNotFound(0))
    ));
    assert_eq!(index.key_count(), 0);
}

#[test]
fn toast_pointer_image_is_byte_exact() {
    let pointer = ToastPointer::new(0x0A0B0C0D, 2, 70000, true);
    assert_eq!(ToastPointer::size(), 13);
    let image = pointer.serialize();
    assert_eq!(
        image,
        vec![0x0D, 0x0C, 0x0B, 0x0A, 2, 0, 0, 0, 0x70, 0x11, 0x01, 0x00, 1]
    );
    let back = ToastPointer::deserialize(&image).unwrap();
    assert_eq!(back.oid, 0x0A0B0C0D);
    assert_eq!(back.chunk_id, 2);
    assert_eq!(back.size, 70000);
    assert!(back.compressed);
    assert!(!ToastPointer::deserialize(&[0u8; 13]).unwrap().compressed);
    assert!(matches!(
        ToastPointer::deserialize(&[0u8; 12]),
        Err(HeapError::InvalidTuple(_))
    ));
}

#[test]
fn toast_encoding() {
    let (table, _) = ToastTable::create(1).unwrap();
    let short: Vec<u8> = (0..31).collect();
    assert_eq!(table.compress(&short).unwrap(), short);

    let chunk: Vec<u8> = (0..32).collect();
    let encoded = table.compress(&chunk).unwrap();
    // A mark before every byte at an even position but the first.
    assert_eq!(encoded.len(), 32 + 15);
    assert_eq!(&encoded[..7], &[0, 1, 0xFF, 2, 3, 0xFF, 4]);
    assert_eq!(table.decompress(&encoded).unwrap(), chunk);

    // A value of 1992 + 10 bytes: one full chunk with marks, ten bytes bare.
    let long = vec![7u8; 2002];
    let encoded = table.compress(&long).unwrap();
    assert_eq!(encoded.len(), 1992 + 995 + 10);
    assert_eq!(table.decompress(&encoded).unwrap(), long);

    // Marks in the value are lost on the way back, but a last one stays.
    assert_eq!(
        table.decompress(&[1, 0xFF, 2, 0xFF, 0xFF, 3, 0xFF]).unwrap(),
        vec![1, 2, 3, 0xFF]
    );
    assert_eq!(table.compress(&[]).unwrap(), Vec::<u8>::new());
    assert_eq!(table.decompress(&[]).unwrap(), Vec::<u8>::new());
}

#[test]
fn toast_store_and_fetch() {
    let (mut table, _) = ToastTable::create(42).unwrap();
    let small = vec![1u8; 2048];
    assert!(matches!(
        table.store(TransactionId(2), CommandId(1), &small),
        Err(HeapError::InvalidOperation(_))
    ));
    assert!(matches!(
        table.store_as(5, &small),
        Err(HeapError::InvalidOperation(_))
    ));

    let value: Vec<u8> = (0..5000u32).map(|i| (i % 200) as u8).collect();
    let pointer = table.store_as(5, &value).unwrap();
    assert_eq!(pointer.oid, 42);
    assert_eq!(pointer.chunk_id, 5);
    assert_eq!(pointer.size, 5000);
    assert!(pointer.compressed);
    assert_eq!(table.fetch(&pointer).unwrap(), value);
    let raw = ToastPointer::new(42, 5, 5000, false);
    assert_eq!(table.fetch(&raw).unwrap(), table.compress(&value).unwrap());

    let drawn = table
        .store(TransactionId(2), CommandId(1), &value)
        .unwrap();
    assert_eq!(drawn.size, 5000);
    assert_eq!(table.fetch(&drawn).unwrap(), value);

    table.remove(5).unwrap();
    assert!(matches!(
        table.fetch(&pointer),
        Err(HeapError::InvalidTuple(_))
    ));
    let opened = ToastTable::open(Vec::new()).unwrap();
    assert_eq!(opened.source_oid, 0);
    assert!(opened.fetch(&pointer).is_err());
}
