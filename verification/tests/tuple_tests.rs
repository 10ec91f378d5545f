use heap_engine::{HeapTuple, HeapTupleHeaderData, ItemPointerData};

#[test]
fn test_heap_tuple_header() {
    let header = HeapTupleHeaderData::new(4);
    assert_eq!(header.natts(), 4);
    assert!(!header.has_null());
    assert!(!header.has_varlena());
}

#[test]
fn test_heap_tuple_serialization() {
    let mut heap_tuple = HeapTuple::with_data(2, b"test_data".to_vec(), false);
    heap_tuple.header.t_xmin = 100;
    heap_tuple.header.t_xmax = 0;

    let serialized = heap_tuple.serialize();
    assert!(serialized.len() > 0);

    let restored = HeapTuple::deserialize(&serialized, 2).unwrap();
    assert_eq!(restored.header.t_xmin, 100);
}

#[test]
fn test_heap_tuple_null_bitmap() {
    let mut heap_tuple = HeapTuple::with_data(4, b"data".to_vec(), true);
    heap_tuple.set_null(1);
    heap_tuple.set_null(3);

    assert!(heap_tuple.is_null(1));
    assert!(!heap_tuple.is_null(2));
    assert!(heap_tuple.is_null(3));
    assert!(!heap_tuple.is_null(4));
}

#[test]
fn test_heap_tuple_ctid() {
    let mut heap_tuple = HeapTuple::new(2);

    let ctid = ItemPointerData {
        block_number: 5,
        offset_number: 10,
    };

    heap_tuple.set_ctid(ctid);

    let retrieved_ctid = heap_tuple.ctid();
    assert_eq!(retrieved_ctid.block_number, 5);
    assert_eq!(retrieved_ctid.offset_number, 10);
}
