use heap_engine::constants::LP_USED;
use heap_engine::{ItemIdData, Page};

#[test]
fn test_page_creation() {
    let page = Page::new(8192);
    assert_eq!(page.page_size, 8192);
    assert_eq!(page.header.pd_lower, 24);
    assert_eq!(page.header.pd_upper, 8192);
    assert_eq!(page.item_count(), 0);
}

#[test]
fn test_page_add_item() {
    let mut page = Page::new(8192);
    let data = b"test_data";
    let offset = page.add_item(data).unwrap();
    assert_eq!(offset, 1);
    assert_eq!(page.item_count(), 1);

    let retrieved = page.get_item(1).unwrap();
    assert_eq!(retrieved, data);
}

#[test]
fn test_page_multiple_items() {
    let mut page = Page::new(8192);
    let data1 = b"item1";
    let data2 = b"item2";
    let data3 = b"item3";

    let offset1 = page.add_item(data1).unwrap();
    let offset2 = page.add_item(data2).unwrap();
    let offset3 = page.add_item(data3).unwrap();

    assert_eq!(offset1, 1);
    assert_eq!(offset2, 2);
    assert_eq!(offset3, 3);

    assert_eq!(page.get_item(1).unwrap(), data1);
    assert_eq!(page.get_item(2).unwrap(), data2);
    assert_eq!(page.get_item(3).unwrap(), data3);
}

#[test]
fn test_page_remove_item() {
    let mut page = Page::new(8192);
    let data = b"test_data";
    page.add_item(data).unwrap();

    assert_eq!(page.item_count(), 1);

    page.remove_item(1).unwrap();

    let items = page.dead_items();
    assert_eq!(items.len(), 1);
}

#[test]
fn test_page_free_space() {
    let mut page = Page::new(8192);
    let initial_free = page.free_space();

    let data = b"test_data";
    page.add_item(data).unwrap();

    let new_free = page.free_space();
    assert!(new_free < initial_free);
}

#[test]
fn test_page_serialize() {
    let mut page = Page::new(8192);
    let data = b"test_data";
    page.add_item(data).unwrap();

    let serialized = page.serialize();
    assert_eq!(serialized.len(), 8192);

    let restored = Page::from_raw(serialized).unwrap();
    assert_eq!(restored.item_count(), 1);
}

#[test]
fn test_page_header_flags() {
    let mut page = Page::new(8192);

    assert!(!page.header.has_free_lines());
    page.header.set_has_free_lines(true);
    assert!(page.header.has_free_lines());

    assert!(!page.header.is_page_full());
    page.header.set_page_full(true);
    assert!(page.header.is_page_full());

    assert!(!page.header.all_visible());
    page.header.set_all_visible(true);
    assert!(page.header.all_visible());
}

#[test]
fn test_item_id_data() {
    let mut item_id = ItemIdData::new();

    item_id.set(100, 50, LP_USED);

    assert_eq!(item_id.offset(), 100);
    assert_eq!(item_id.length(), 50);
    assert_eq!(item_id.flags(), LP_USED);
    assert!(item_id.is_used());
}
