use heap_engine::{
    CommandId, HeapTuple, HeapTupleStatus, Snapshot, TransactionId, Visibility, VisibilityMode,
};

#[test]
fn test_visibility_mvcc() {
    let mut heap_tuple = HeapTuple::with_data(1, b"test".to_vec(), false);
    heap_tuple.header.t_xmin = 5;

    let snapshot = Snapshot::new(10, 100, vec![], 5, VisibilityMode::MVCC);

    let result = Visibility::heap_tuple_satisfies_mvcc(&heap_tuple, &snapshot, TransactionId(5));
    assert!(result);
}

#[test]
fn test_visibility_self() {
    let mut heap_tuple = HeapTuple::with_data(1, b"test".to_vec(), false);
    heap_tuple.header.t_xmin = 100;

    let result =
        Visibility::heap_tuple_satisfies_self(&heap_tuple, TransactionId(100), CommandId(1));
    assert!(result);
}

#[test]
fn test_visibility_any() {
    let mut heap_tuple = HeapTuple::new(1);
    heap_tuple.header.t_xmax = 0;

    assert!(Visibility::heap_tuple_satisfies_any(&heap_tuple));

    heap_tuple.header.t_xmax = 100;
    heap_tuple.header.set_xmax_committed(true);

    assert!(!Visibility::heap_tuple_satisfies_any(&heap_tuple));
}

#[test]
fn test_hint_bits() {
    let mut heap_tuple = HeapTuple::new(1);

    Visibility::set_hint_bits(
        &mut heap_tuple,
        HeapTupleStatus::Comitted,
        HeapTupleStatus::Aborted,
    );

    assert!(heap_tuple.header.xmin_committed());
    assert!(heap_tuple.header.xmax_invalid());
}
