use heap_engine::constants::{LP_DEAD, LP_NORMAL, LP_USED};
use heap_engine::{HeapError, ItemIdData, Page, PageHeaderData};

fn assert_layout(page: &Page) {
    assert!(page.header.pd_lower >= 24);
    assert!(page.header.pd_upper as usize <= page.page_size);
    assert!(page.header.pd_lower <= page.header.pd_upper);
    assert!(page.is_valid());
}

#[test]
fn layout_invariants_hold_after_every_page_operation() {
    let mut page = Page::new(8192);
    assert_layout(&page);
    for i in 0..50u8 {
        page.add_item(&vec![i; 100]).unwrap();
        assert_layout(&page);
    }
    page.remove_item(7).unwrap();
    assert_layout(&page);
    page.reclaim_space();
    assert_layout(&page);
    assert!(page.add_item(&vec![0u8; 8000]).is_err());
    assert_layout(&page);
    let restored = Page::from_raw(page.serialize()).unwrap();
    assert_layout(&restored);
}

#[test]
fn used_items_lie_within_the_page() {
    let mut page = Page::new(8192);
    for i in 0..20usize {
        page.add_item(&vec![1u8; 10 + i]).unwrap();
    }
    page.remove_item(3).unwrap();
    for item in page.item_id_data.iter() {
        if item.is_used() {
            assert!(item.offset() as usize + item.length() as usize <= page.page_size);
            assert!(item.offset() >= page.header.pd_upper);
        }
    }
}

#[test]
fn new_page_is_empty() {
    let page = Page::new(8192);
    assert_eq!(page.header.pd_lower, 24);
    assert_eq!(page.header.pd_upper, 8192);
    assert_eq!(page.header.pd_special, 8192);
    assert_eq!(page.header.pd_flags, 0);
    assert_eq!(page.free_space(), 8168);
    assert_eq!(page.item_count(), 0);
}

#[test]
fn empty_page_image_is_byte_exact() {
    let image = Page::new(8192).serialize();
    assert_eq!(image.len(), 8192);
    let expected_header: [u8; 24] = [
        0, 0, 0, 0, 0, 0, 0, 0, // lsn
        0, 0, // checksum
        0, 0, // flags
        24, 0, // pd_lower
        0x00, 0x20, // pd_upper
        0x00, 0x20, // pd_special
        4, 0, // size and version
        0, 0, 0, 0, // prune xid
    ];
    assert_eq!(&image[..24], &expected_header[..]);
    assert!(image[24..].iter().all(|b| *b == 0));
}

#[test]
fn page_image_with_one_item_is_byte_exact() {
    let mut page = Page::new(8192);
    page.header.pd_lsn = 0x0102030405060708;
    page.header.pd_prune_xid = 0xA1B2C3D4;
    assert_eq!(page.add_item(b"test_data").unwrap(), 1);
    assert_eq!(page.header.pd_lower, 28);
    assert_eq!(page.header.pd_upper, 8183);
    assert_eq!(page.free_space(), 8155);
    assert_eq!(page.item_id_data[0].bits, 0x4004_9FF7);

    let image = page.serialize();
    assert_eq!(&image[0..8], &[8, 7, 6, 5, 4, 3, 2, 1]);
    assert_eq!(&image[12..14], &[28, 0]);
    assert_eq!(&image[14..16], &[0xF7, 0x1F]);
    assert_eq!(&image[20..24], &[0xD4, 0xC3, 0xB2, 0xA1]);
    assert_eq!(&image[24..28], &[0xF7, 0x9F, 0x04, 0x40]);
    assert!(image[28..8183].iter().all(|b| *b == 0));
    assert_eq!(&image[8183..], b"test_data");
}

#[test]
fn page_round_trip() {
    let mut page = Page::new(8192);
    page.add_item(b"first").unwrap();
    page.add_item(b"second item").unwrap();
    page.add_item(b"").unwrap();
    page.remove_item(1).unwrap();
    page.header.set_all_visible(true);
    page.header.pd_lsn = 77;

    let restored = Page::from_raw(page.serialize()).unwrap();
    assert_eq!(restored.page_size, page.page_size);
    assert_eq!(restored.header.pd_lsn, 77);
    assert_eq!(restored.header.pd_flags, page.header.pd_flags);
    assert_eq!(restored.header.pd_lower, page.header.pd_lower);
    assert_eq!(restored.header.pd_upper, page.header.pd_upper);
    assert_eq!(restored.header.pd_special, page.header.pd_special);
    assert_eq!(
        restored.header.pd_pagesize_version,
        page.header.pd_pagesize_version
    );
    assert_eq!(restored.item_count(), 3);
    for i in 0..3 {
        assert_eq!(restored.item_id_data[i].bits, page.item_id_data[i].bits);
    }
    assert_eq!(restored.get_item(1), None);
    assert_eq!(restored.get_item(2).unwrap(), b"second item");
    assert_eq!(restored.get_item(3).unwrap(), b"");
    assert_eq!(restored.serialize(), page.serialize());

    let again = Page::deserialize(&page.serialize()).unwrap();
    assert_eq!(again.serialize(), page.serialize());
    assert!(matches!(
        Page::deserialize(&[0u8; 8192]),
        Err(HeapError::InvalidPage(_))
    ));
}

#[test]
fn header_round_trip() {
    let header = PageHeaderData {
        pd_lsn: 0xDEADBEEF00112233,
        pd_checksum: 0xABCD,
        pd_flags: 5,
        pd_lower: 40,
        pd_upper: 8000,
        pd_special: 8192,
        pd_pagesize_version: 4,
        pd_prune_xid: 99,
    };
    let mut buf = vec![0xEEu8; 30];
    header.serialize(&mut buf).unwrap();
    assert_eq!(&buf[8..10], &[0xCD, 0xAB]);
    assert_eq!(&buf[24..], &[0xEE; 6]);
    let back = PageHeaderData::deserialize(&buf).unwrap();
    assert_eq!(back.pd_lsn, header.pd_lsn);
    assert_eq!(back.pd_checksum, header.pd_checksum);
    assert_eq!(back.pd_flags, header.pd_flags);
    assert_eq!(back.pd_lower, header.pd_lower);
    assert_eq!(back.pd_upper, header.pd_upper);
    assert_eq!(back.pd_special, header.pd_special);
    assert_eq!(back.pd_pagesize_version, header.pd_pagesize_version);
    assert_eq!(back.pd_prune_xid, header.pd_prune_xid);
}

#[test]
fn header_into_short_buffer_fails_after_writing_what_fits() {
    let header = PageHeaderData::new(8192);
    let mut buf = vec![0xEEu8; 15];
    let r = header.serialize(&mut buf);
    assert!(matches!(r, Err(HeapError::IoError(_))));
    assert_eq!(
        buf,
        vec![0, 0, 0, 0, 0, 0, 0, 0, 0, 0, 0, 0, 24, 0, 0x00]
    );
}

#[test]
fn header_from_short_buffer_is_invalid_page() {
    let r = PageHeaderData::deserialize(&[0u8; 23]);
    assert!(matches!(r, Err(HeapError::InvalidPage(_))));
}

#[test]
fn add_item_fails_without_free_space() {
    let mut page = Page::new(8192);
    // 8168 bytes are free: 8164 bytes and an item identifier fill them.
    assert!(matches!(
        page.add_item(&vec![0u8; 8165]),
        Err(HeapError::NoFreeSpace)
    ));
    assert_eq!(page.item_count(), 0);
    assert_eq!(page.free_space(), 8168);
    assert_eq!(page.add_item(&vec![0u8; 8164]).unwrap(), 1);
    assert_eq!(page.free_space(), 0);
    assert!(matches!(page.add_item(b""), Err(HeapError::NoFreeSpace)));
}

#[test]
fn page_full_flag_is_set_below_32_free_bytes() {
    let mut page = Page::new(8192);
    page.add_item(&vec![0u8; 8168 - 4 - 32]).unwrap();
    assert_eq!(page.free_space(), 32);
    assert!(!page.header.is_page_full());

    let mut page = Page::new(8192);
    page.add_item(&vec![0u8; 8168 - 4 - 31]).unwrap();
    assert_eq!(page.free_space(), 31);
    assert!(page.header.is_page_full());
}

#[test]
fn get_item_of_missing_or_dead_slot_is_none() {
    let mut page = Page::new(8192);
    page.add_item(b"abc").unwrap();
    assert!(page.get_item(0).is_none());
    assert!(page.get_item(2).is_none());
    page.remove_item(1).unwrap();
    assert!(page.get_item(1).is_none());
    assert!(page.get_item_mut(1).is_none());
}

#[test]
fn get_item_mut_writes_in_place() {
    let mut page = Page::new(8192);
    page.add_item(b"aaaa").unwrap();
    page.add_item(b"bbbb").unwrap();
    {
        let span = page.get_item_mut(1).unwrap();
        assert_eq!(span.len(), 4);
        span.copy_from_slice(b"wxyz");
    }
    assert_eq!(page.get_item(1).unwrap(), b"wxyz");
    assert_eq!(page.get_item(2).unwrap(), b"bbbb");
    assert_eq!(&page.data[8188..8192], b"wxyz");
}

#[test]
fn remove_item_marks_dead_and_keeps_the_body() {
    let mut page = Page::new(8192);
    page.add_item(b"one").unwrap();
    page.add_item(b"two").unwrap();
    let upper = page.header.pd_upper;
    page.remove_item(1).unwrap();
    assert_eq!(page.header.pd_upper, upper);
    assert!(page.has_free_lines());
    assert!(page.item_id_data[0].is_dead());
    assert_eq!(page.item_id_data[0].bits, 0x8000_0000);
    assert_eq!(page.dead_items(), vec![1]);
    assert_eq!(page.get_item(2).unwrap(), b"two");
    assert_eq!(&page.data[8189..8192], b"one");
}

#[test]
fn remove_item_of_missing_slot_is_invalid_tuple() {
    let mut page = Page::new(8192);
    page.add_item(b"one").unwrap();
    assert!(matches!(
        page.remove_item(2),
        Err(HeapError::InvalidTuple(_))
    ));
    assert!(matches!(
        page.remove_item(0),
        Err(HeapError::InvalidTuple(_))
    ));
    assert_eq!(page.dead_items(), Vec::<u16>::new());
}

#[test]
fn reclaim_space_rises_to_the_lowest_live_body() {
    let mut page = Page::new(8192);
    page.add_item(&[1u8; 100]).unwrap();
    page.add_item(&[2u8; 100]).unwrap();
    page.add_item(&[3u8; 100]).unwrap();
    assert_eq!(page.header.pd_upper, 7892);

    page.remove_item(3).unwrap();
    page.reclaim_space();
    assert_eq!(page.header.pd_upper, 7992);
    assert_eq!(page.get_item(1).unwrap(), &[1u8; 100][..]);
    assert_eq!(page.get_item(2).unwrap(), &[2u8; 100][..]);

    page.remove_item(1).unwrap();
    page.reclaim_space();
    assert_eq!(page.header.pd_upper, 7992);

    page.remove_item(2).unwrap();
    page.reclaim_space();
    assert_eq!(page.header.pd_upper, 8192);
    assert_eq!(page.free_space(), 8192 - 24 - 12);
}

#[test]
fn from_raw_rejects_bad_images() {
    assert!(matches!(
        Page::from_raw(vec![0u8; 100]),
        Err(HeapError::InvalidPage(_))
    ));
    // All zero: pd_lower is below the header.
    assert!(matches!(
        Page::from_raw(vec![0u8; 8192]),
        Err(HeapError::InvalidPage(_))
    ));

    let good = Page::new(8192).serialize();

    let mut upper_past_end = good.clone();
    upper_past_end[14..16].copy_from_slice(&8193u16.to_le_bytes());
    assert!(Page::from_raw(upper_past_end).is_err());

    let mut lower_past_upper = good.clone();
    lower_past_upper[12..14].copy_from_slice(&8000u16.to_le_bytes());
    lower_past_upper[14..16].copy_from_slice(&7000u16.to_le_bytes());
    assert!(Page::from_raw(lower_past_upper).is_err());

    let mut special = good.clone();
    special[16..18].copy_from_slice(&8000u16.to_le_bytes());
    assert!(Page::from_raw(special).is_err());

    let mut ragged = good.clone();
    ragged[12..14].copy_from_slice(&26u16.to_le_bytes());
    assert!(Page::from_raw(ragged).is_err());

    // A live item that reaches past the end of the page.
    let mut item = ItemIdData::new();
    item.set(8190, 10, LP_USED);
    let mut overhang = good.clone();
    overhang[12..14].copy_from_slice(&28u16.to_le_bytes());
    overhang[24..28].copy_from_slice(&item.bits.to_le_bytes());
    assert!(Page::from_raw(overhang).is_err());

    assert!(Page::from_raw(vec![0u8; 40000]).is_err());
    assert!(Page::from_raw(good).is_ok());
}

#[test]
fn item_id_packs_three_fields() {
    let mut item = ItemIdData::new();
    assert!(item.is_normal());
    assert_eq!(item.flags(), LP_NORMAL);
    item.set(0x7FFF, 0x7FFF, LP_DEAD);
    assert_eq!(item.bits, 0xBFFF_FFFF);
    assert_eq!(item.offset(), 0x7FFF);
    assert_eq!(item.length(), 0x7FFF);
    assert!(item.is_dead());
    item.set(1, 2, LP_USED);
    assert_eq!(item.bits, 1 | (2 << 15) | (1 << 30));
    // Fields are cut to their widths.
    item.set(0x8001, 0x8002, 5);
    assert_eq!(item.offset(), 1);
    assert_eq!(item.length(), 2);
    assert_eq!(item.flags(), 1);
}

#[test]
fn header_flags_are_independent() {
    let mut header = PageHeaderData::new(8192);
    header.set_page_full(true);
    header.set_all_visible(true);
    assert_eq!(header.pd_flags, 0x0006);
    header.set_has_free_lines(true);
    header.set_page_full(false);
    assert_eq!(header.pd_flags, 0x0005);
    assert!(header.has_free_lines());
    assert!(!header.is_page_full());
    assert!(header.all_visible());
    assert_eq!(PageHeaderData::size(), 24);
    assert_eq!(header.free_space(8192), 8168);
}

#[test]
fn largest_page_size() {
    let mut page = Page::new(32768);
    assert_eq!(page.header.pd_upper, 32768);
    assert_eq!(page.free_space(), 32768 - 24);
    // An empty item at the very end of the largest page: its offset does
    // not fit the 15 bits of the identifier and is kept as zero.
    assert_eq!(page.add_item(b"").unwrap(), 1);
    assert_eq!(page.item_id_data[0].offset(), 0);
    assert_eq!(page.get_item(1).unwrap(), b"");
    assert_eq!(page.add_item(b"end").unwrap(), 2);
    assert_eq!(page.item_id_data[1].offset(), 32765);
    assert_eq!(page.get_item(2).unwrap(), b"end");
    let restored = Page::from_raw(page.serialize()).unwrap();
    assert_eq!(restored.get_item(1).unwrap(), b"");
    assert_eq!(restored.get_item(2).unwrap(), b"end");
    assert!(restored.is_valid());

    let smallest = Page::new(24);
    assert_eq!(smallest.free_space(), 0);
    assert!(smallest.is_valid());
    // An image shorter than a default page is no page.
    assert!(Page::from_raw(Page::new(4096).serialize()).is_err());
}
