use heap_engine::{
    heap_tuple_get_struct, CommandId, HeapError, HeapTuple, HeapTupleHeaderData, ItemPointerData,
    TransactionId,
};

#[test]
fn tuple_image_is_byte_exact() {
    let mut tuple = HeapTuple::with_data(2, b"hello".to_vec(), false);
    tuple.set_xmin(TransactionId(2));
    tuple.set_cid(CommandId(1));
    tuple.set_ctid(ItemPointerData {
        block_number: 0,
        offset_number: 1,
    });
    assert_eq!(tuple.size(), 29);
    let image = tuple.serialize();
    let expected: Vec<u8> = vec![
        2, 0, 0, 0, // xmin
        0, 0, 0, 0, // xmax
        1, 0, 0, 0, // cid
        0, 0, 0, 0, // ctid block
        1, 0, // ctid offset
        2, 0, // infomask2
        0, 0, // infomask
        24, // hoff
        0, // padding
        b'h', b'e', b'l', b'l', b'o',
    ];
    assert_eq!(image, expected);
}

#[test]
fn tuple_image_with_null_bitmap_is_aligned() {
    let mut tuple = HeapTuple::with_data(10, b"xy".to_vec(), true);
    tuple.set_null(1);
    tuple.set_null(10);
    assert_eq!(tuple.null_bitmap, Some(vec![0x01, 0x02]));
    // 24 header bytes, 2 bitmap bytes, padding to 32, 2 payload bytes.
    assert_eq!(tuple.size(), 34);
    let image = tuple.serialize();
    assert_eq!(image.len(), 34);
    assert_eq!(&image[20..22], &[0x01, 0x00]);
    // The header records the payload offset.
    assert_eq!(image[22], 32);
    assert_eq!(&image[24..26], &[0x01, 0x02]);
    assert_eq!(&image[26..32], &[0u8; 6]);
    assert_eq!(&image[32..], b"xy");
}

#[test]
fn tuple_round_trip() {
    let mut tuple = HeapTuple::with_data(9, b"payload bytes".to_vec(), true);
    tuple.set_null(4);
    tuple.set_xmin(TransactionId(17));
    tuple.set_xmax(TransactionId(23));
    tuple.set_cid(CommandId(5));
    tuple.set_ctid(ItemPointerData {
        block_number: 70000,
        offset_number: 513,
    });
    tuple.header.set_xmin_committed(true);
    tuple.header.set_keys_updated(true);

    let restored = HeapTuple::deserialize(&tuple.serialize(), 9).unwrap();
    assert_eq!(restored.header.t_xmin, 17);
    assert_eq!(restored.header.t_xmax, 23);
    assert_eq!(restored.header.t_cid, 5);
    assert_eq!(restored.header.t_ctid, tuple.header.t_ctid);
    assert_eq!(restored.header.t_infomask2, tuple.header.t_infomask2);
    assert_eq!(restored.header.t_infomask, tuple.header.t_infomask);
    assert_eq!(restored.header.t_hoff, tuple.header.t_hoff);
    assert_eq!(restored.data, tuple.data);
    assert_eq!(restored.null_bitmap, tuple.null_bitmap);

    let plain = HeapTuple::with_data(3, Vec::new(), false);
    let restored = HeapTuple::deserialize(&plain.serialize(), 3).unwrap();
    assert_eq!(restored.data, Vec::<u8>::new());
    assert_eq!(restored.null_bitmap, None);
    assert_eq!(restored.header.t_infomask2, 3);
}

#[test]
fn tuple_from_short_buffer_is_invalid_tuple() {
    assert!(matches!(
        HeapTuple::deserialize(&[0u8; 23], 1),
        Err(HeapError::InvalidTuple(_))
    ));
    assert!(matches!(
        HeapTupleHeaderData::deserialize(&[0u8; 23]),
        Err(HeapError::InvalidTuple(_))
    ));
    assert!(HeapTuple::deserialize(&[0u8; 24], 1).is_ok());
}

#[test]
fn tuple_header_into_short_buffer_fails_after_writing_what_fits() {
    let mut header = HeapTupleHeaderData::new(1);
    header.t_xmin = 0x01020304;
    let mut buf = vec![0xEEu8; 5];
    assert!(matches!(
        header.serialize(&mut buf),
        Err(HeapError::IoError(_))
    ));
    assert_eq!(buf, vec![4, 3, 2, 1, 0]);

    let mut buf = vec![0xEEu8; 24];
    header.serialize(&mut buf).unwrap();
    assert_eq!(buf[22], 24);
    assert_eq!(buf[23], 0xEE);
}

#[test]
fn compute_hoff_rounds_up_to_eight() {
    assert_eq!(HeapTupleHeaderData::compute_hoff(0, false, false), 24);
    assert_eq!(HeapTupleHeaderData::compute_hoff(100, false, true), 24);
    assert_eq!(HeapTupleHeaderData::compute_hoff(1, true, false), 32);
    assert_eq!(HeapTupleHeaderData::compute_hoff(64, true, false), 32);
    assert_eq!(HeapTupleHeaderData::compute_hoff(65, true, false), 40);
    // The field has one byte: 24 + 250 rounds up to 280, which is cut to 24.
    assert_eq!(HeapTupleHeaderData::compute_hoff(2000, true, false), 24);
    assert_eq!(HeapTupleHeaderData::size(), 24);
}

#[test]
fn hint_bits_are_independent() {
    let mut header = HeapTupleHeaderData::new(5);
    header.set_xmin_committed(true);
    header.set_xmax_invalid(true);
    assert_eq!(header.t_infomask, 0x0900);
    header.set_xmin_invalid(true);
    header.set_xmax_committed(true);
    header.set_xmax_is_locked_only(true);
    assert_eq!(header.t_infomask, 0x1F00);
    header.set_xmin_committed(false);
    header.set_xmax_is_locked_only(false);
    assert_eq!(header.t_infomask, 0x0E00);
    assert!(!header.xmin_committed());
    assert!(header.xmin_invalid());
    assert!(header.xmax_committed());
    assert!(header.xmax_invalid());
    assert!(!header.xmax_is_locked_only());
    assert!(!header.has_null());
    assert!(!header.has_varlena());

    assert!(!header.keys_updated());
    header.set_keys_updated(true);
    assert_eq!(header.t_infomask2, 0x1005);
    assert_eq!(header.natts(), 5);
    assert!(header.keys_updated());
    header.set_keys_updated(false);
    assert_eq!(header.t_infomask2, 5);
}

#[test]
fn null_bitmap_edges() {
    let mut tuple = HeapTuple::with_data(9, Vec::new(), true);
    assert_eq!(tuple.null_bitmap, Some(vec![0, 0]));
    tuple.set_null(0);
    tuple.set_null(17);
    assert_eq!(tuple.null_bitmap, Some(vec![0, 0]));
    tuple.set_null(8);
    tuple.set_null(9);
    assert_eq!(tuple.null_bitmap, Some(vec![0x80, 0x01]));
    assert!(!tuple.is_null(0));
    assert!(tuple.is_null(8));
    assert!(tuple.is_null(9));
    assert!(!tuple.is_null(17));

    let mut plain = HeapTuple::with_data(9, Vec::new(), false);
    plain.set_null(1);
    assert!(!plain.is_null(1));
    assert!(plain.get_value(1).is_none());

    let none = HeapTuple::with_data(0, Vec::new(), true);
    assert!(none.header.has_null());
    assert_eq!(none.null_bitmap, None);
}

#[test]
fn accessors_read_the_header() {
    let mut tuple = HeapTuple::new(3);
    assert_eq!(tuple.xmin(), TransactionId(0));
    assert_eq!(tuple.xmax(), TransactionId(0));
    assert!(tuple.ctid().is_invalid());
    tuple.set_xmin(TransactionId(4));
    tuple.set_xmax(TransactionId(5));
    tuple.set_cid(CommandId(6));
    assert_eq!(tuple.xmin().0, 4);
    assert_eq!(tuple.xmax().0, 5);
    assert_eq!(tuple.cid().0, 6);
    let header = heap_tuple_get_struct(&tuple, 3).unwrap();
    assert_eq!(header.t_xmin, 4);
    assert_eq!(header.t_xmax, 5);
    assert_eq!(header.t_cid, 6);
    assert_eq!(header.t_hoff, 24);
}
