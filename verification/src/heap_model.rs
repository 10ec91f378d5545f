//! The model of the heap operations: what an insert, a fetch, a scan and a
//! vacuum are, as functions of the state of the block device.

use crate::constants::{BLCKSZ, HEAP_FIXED_HEADER_SIZE, ITEM_ID_SIZE};
use crate::error::HeapError;
use crate::heap_tuple::{HeapTuple, HeapTupleHeaderData, HeapTupleView};
use crate::page::PageView;
use crate::storage::{ReadOutcome, StorageView};
use crate::transaction::TransactionTable;
use crate::types::{ItemPointerData, Snapshot};
use crate::visibility::visible;
use vstd::prelude::*;

verus! {

/// The tuple that an insert stores: created by `xid` under command `cid`,
/// obsoleted by nobody, no hint set, pointing at `ctid`.
pub open spec fn fresh_tuple(
    natts: u16,
    xid: u32,
    cid: u32,
    ctid: ItemPointerData,
    data: Seq<u8>,
) -> HeapTupleView {
    HeapTupleView {
        header: HeapTupleHeaderData {
            t_xmin: xid,
            t_xmax: 0,
            t_cid: cid,
            t_ctid: ctid,
            ..HeapTupleHeaderData::fresh(natts)
        },
        null_bitmap: None,
        data,
    }
}

/// The free space that a page needs to take a tuple with `len` payload
/// bytes: the tuple header, the payload and one item identifier.
pub open spec fn space_needed(len: nat) -> int {
    HEAP_FIXED_HEADER_SIZE + len + ITEM_ID_SIZE
}

/// Where an insert puts its tuple.
pub enum Placement {
    /// Into this block, the first with enough free space.
    Block(u32),
    /// Into a block that is allocated for it, as no block has enough free
    /// space.
    Fresh,
    /// Nowhere: this block could not be read on the way.
    Unreadable(u32),
}

/// The placement of a tuple that needs `need` bytes, looking at the blocks
/// from `from` on in ascending order.
pub open spec fn placement(s: StorageView, need: int, from: int) -> Placement
    decreases s.page_count() - from,
{
    if from < 0 || from >= s.page_count() {
        Placement::Fresh
    } else {
        match s.read(from as u32) {
            ReadOutcome::Page(p) => if p.free_space() >= need {
                Placement::Block(from as u32)
            } else {
                placement(s, need, from + 1)
            },
            _ => Placement::Unreadable(from as u32),
        }
    }
}

/// Whether `e` is the error that reading block `n` of `s` gives.
pub open spec fn is_read_error(s: StorageView, n: u32, e: HeapError) -> bool {
    match s.read(n) {
        ReadOutcome::Page(_) => false,
        ReadOutcome::Missing => e == HeapError::PageNotFound(n),
        ReadOutcome::Corrupt => e is InvalidPage,
    }
}

/// The device after a tuple was added to the page `page` of block `block`
/// under the next slot number, with its self-pointer in place.
pub open spec fn with_tuple(
    s: StorageView,
    block: u32,
    page: PageView,
    natts: u16,
    xid: u32,
    cid: u32,
    data: Seq<u8>,
) -> StorageView {
    let ctid = pointer(block, next_slot(page));
    s.with_page(block, page.with_item(fresh_tuple(natts, xid, cid, ctid, data).image()))
}

/// What fetching the tuple at a pointer gives.
pub enum Fetch {
    /// The block could not be read.
    Unreadable,
    /// The slot does not exist or is not in use.
    Absent,
    /// The item is too short to be a tuple.
    Malformed,
    /// The tuple.
    Tuple(HeapTupleView),
}

/// The bytes of the item at `ctid`, where the block can be read and the slot
/// is in use.
pub open spec fn stored(s: StorageView, ctid: ItemPointerData) -> Option<Seq<u8>> {
    match s.read(ctid.block_number) {
        ReadOutcome::Page(p) => p.item(ctid.offset_number),
        _ => None,
    }
}

/// What fetching the tuple of `natts` attributes at `ctid` gives.
pub open spec fn fetch(s: StorageView, natts: u16, ctid: ItemPointerData) -> Fetch {
    match s.read(ctid.block_number) {
        ReadOutcome::Page(p) => match p.item(ctid.offset_number) {
            Some(bytes) => if bytes.len() >= HEAP_FIXED_HEADER_SIZE {
                Fetch::Tuple(HeapTupleView::parse(bytes, natts))
            } else {
                Fetch::Malformed
            },
            None => Fetch::Absent,
        },
        _ => Fetch::Unreadable,
    }
}

/// The pointer to the slot `slot` of block `block`.
pub open spec fn pointer(block: u32, slot: u16) -> ItemPointerData {
    ItemPointerData { block_number: block, offset_number: slot }
}

/// The number that the next item of a page gets.
pub open spec fn next_slot(page: PageView) -> u16 {
    (page.items.len() + 1) as u16
}

/// What an insert leaves behind and returns: the device after it, and the
/// pointer to the new tuple if one was stored.
pub open spec fn inserted(s: StorageView, natts: u16, xid: u32, cid: u32, data: Seq<u8>) -> (
    StorageView,
    Option<ItemPointerData>,
) {
    match placement(s, space_needed(data.len()), 0) {
        Placement::Unreadable(_) => (s, None),
        Placement::Block(n) => {
            let page = s.read(n)->Page_0;
            (
                with_tuple(s, n, page, natts, xid, cid, data),
                Some(pointer(n, next_slot(page))),
            )
        },
        Placement::Fresh => {
            let n = (s.max_block + 1) as u32;
            let page = PageView::empty(BLCKSZ as nat);
            let allocated = s.with_page(n, page);
            if page.free_space() >= space_needed(data.len()) {
                (with_tuple(allocated, n, page, natts, xid, cid, data), Some(pointer(n, 1)))
            } else {
                (allocated, None)
            }
        },
    }
}

/// The device after the header of the tuple at `ctid` was replaced by
/// `header`, in place.
pub open spec fn with_header(
    s: StorageView,
    natts: u16,
    ctid: ItemPointerData,
    header: HeapTupleHeaderData,
) -> StorageView {
    let page = s.read(ctid.block_number)->Page_0;
    let tuple = HeapTupleView::parse(page.item(ctid.offset_number)->Some_0, natts);
    s.with_page(
        ctid.block_number,
        page.with_body(ctid.offset_number, (HeapTupleView { header, ..tuple }).image()),
    )
}

/// Whether the tuple at `ctid` can be rewritten in place: the image of
/// what was read from the item is exactly as long as the item. It is not
/// where the item ends before the payload offset that its header and the
/// attribute count give.
pub open spec fn rewritable(s: StorageView, natts: u16, ctid: ItemPointerData) -> bool {
    let page = s.read(ctid.block_number)->Page_0;
    let bytes = page.item(ctid.offset_number)->Some_0;
    HeapTupleView::parse(bytes, natts).size() == bytes.len()
}

/// The header of a tuple after `xid` obsoleted it under command `cid`.
pub open spec fn obsoleted_by(h: HeapTupleHeaderData, xid: u32, cid: u32) -> HeapTupleHeaderData {
    HeapTupleHeaderData { t_xmax: xid, t_cid: cid, ..h }
}

/// The header of a tuple after `xid` replaced it under command `cid` by the
/// version at `successor`.
pub open spec fn replaced_by(
    h: HeapTupleHeaderData,
    xid: u32,
    cid: u32,
    successor: ItemPointerData,
) -> HeapTupleHeaderData {
    HeapTupleHeaderData { t_xmax: xid, t_cid: cid, t_ctid: successor, ..h }
}

/// The placement of a tuple names a readable block with room for it, or
/// fails at a block that cannot be read.
pub proof fn lemma_placement(s: StorageView, need: int, from: int)
    requires
        0 <= from,
    ensures
        match placement(s, need, from) {
            Placement::Block(n) => {
                &&& from <= n < s.page_count()
                &&& s.read(n) is Page
                &&& s.read(n)->Page_0.free_space() >= need
            },
            Placement::Unreadable(n) => from <= n < s.page_count() && !(s.read(n) is Page),
            Placement::Fresh => true,
        },
    decreases s.page_count() - from,
{
    if from < s.page_count() {
        if s.read(from as u32) is Page && s.read(from as u32)->Page_0.free_space() < need {
            lemma_placement(s, need, from + 1);
        }
    }
}

/// The first unreadable block among a few is the first among more.
pub proof fn lemma_unreadable_below(s: StorageView, n: nat, m: nat)
    requires
        n <= m,
        unreadable_below(s, n) is Some,
    ensures
        unreadable_below(s, m) == unreadable_below(s, n),
    decreases m - n,
{
    if n < m {
        lemma_unreadable_below(s, n, (m - 1) as nat);
    }
}

/// A page that was read from a device keeps the layout invariants and is at
/// least a default page long.
pub proof fn lemma_read_page(s: StorageView, n: u32)
    requires
        s.read(n) is Page,
    ensures
        s.read(n)->Page_0.wf(),
        s.read(n)->Page_0.page_size >= BLCKSZ,
        s.pages.contains_key(n),
{
}

/// An insert keeps the device well formed and does not disturb what is
/// stored: every tuple that could be fetched before is fetched unchanged
/// after, and the new tuple is fetched at the pointer returned, as it was
/// inserted.
pub proof fn lemma_inserted(s: StorageView, natts: u16, xid: u32, cid: u32, data: Seq<u8>)
    requires
        s.wf(),
        s.max_block + 1 < u32::MAX,
    ensures
        inserted(s, natts, xid, cid, data).0.wf(),
        forall|ctid: ItemPointerData|
            stored(s, ctid) is Some ==> #[trigger] stored(
                inserted(s, natts, xid, cid, data).0,
                ctid,
            ) == stored(s, ctid),
        forall|ctid: ItemPointerData|
            fetch(s, natts, ctid) is Tuple ==> #[trigger] fetch(
                inserted(s, natts, xid, cid, data).0,
                natts,
                ctid,
            ) == fetch(s, natts, ctid),
        forall|n: u32|
            s.read(n) is Page ==> #[trigger] inserted(s, natts, xid, cid, data).0.read(n) is Page,
        inserted(s, natts, xid, cid, data).0.page_count() >= s.page_count(),
        s.max_block <= inserted(s, natts, xid, cid, data).0.max_block <= s.max_block + 1,
        match inserted(s, natts, xid, cid, data).1 {
            Some(new) => {
                &&& fetch(inserted(s, natts, xid, cid, data).0, natts, new) == Fetch::Tuple(
                    fresh_tuple(natts, xid, cid, new, data),
                )
                &&& !(fetch(s, natts, new) is Tuple)
                &&& new.offset_number >= 1
                &&& new.block_number < inserted(s, natts, xid, cid, data).0.page_count()
            },
            None => true,
        },
{
    let need = space_needed(data.len());
    let after = inserted(s, natts, xid, cid, data).0;
    lemma_placement(s, need, 0);
    match placement(s, need, 0) {
        Placement::Unreadable(_) => {},
        Placement::Block(n) => {
            let page = s.read(n)->Page_0;
            lemma_read_page(s, n);
            lemma_tuple_added(s, n, page, natts, xid, cid, data);
        },
        Placement::Fresh => {
            let n = (s.max_block + 1) as u32;
            let page = PageView::empty(BLCKSZ as nat);
            let allocated = s.with_page(n, page);
            s.lemma_with_page(n, page);
            assert(!s.pages.contains_key(n));
            assert forall|ctid: ItemPointerData| stored(s, ctid) is Some implies #[trigger] stored(
                allocated,
                ctid,
            ) == stored(s, ctid) by {
                assert(s.pages.contains_key(ctid.block_number));
            }
            assert forall|ctid: ItemPointerData| fetch(s, natts, ctid) is Tuple implies fetch(
                allocated,
                natts,
                ctid,
            ) == fetch(s, natts, ctid) by {
                assert(stored(allocated, ctid) == stored(s, ctid));
            }
            if page.free_space() >= need {
                lemma_tuple_added(allocated, n, page, natts, xid, cid, data);
                assert(page.item(1) is None);
                assert forall|ctid: ItemPointerData| stored(s, ctid) is Some implies #[trigger] stored(
                    after,
                    ctid,
                ) == stored(s, ctid) by {
                    assert(stored(allocated, ctid) == stored(s, ctid));
                }
                assert forall|ctid: ItemPointerData| fetch(s, natts, ctid) is Tuple implies fetch(
                    after,
                    natts,
                    ctid,
                ) == fetch(s, natts, ctid) by {
                    assert(stored(after, ctid) == stored(s, ctid));
                }
                assert forall|k: u32| s.read(k) is Page implies #[trigger] after.read(k) is Page by {
                    assert(allocated.read(k) is Page);
                }
            }
        },
    }
}

/// Adding a tuple to a page that has room for it, and writing the page
/// back, keeps the device well formed, stores the tuple under the next
/// slot number of that page, and leaves every other tuple as it was.
pub proof fn lemma_tuple_added(
    s: StorageView,
    n: u32,
    page: PageView,
    natts: u16,
    xid: u32,
    cid: u32,
    data: Seq<u8>,
)
    requires
        s.wf(),
        n < u32::MAX,
        s.read(n) == ReadOutcome::Page(page),
        page.free_space() >= space_needed(data.len()),
    ensures
        with_tuple(s, n, page, natts, xid, cid, data).wf(),
        with_tuple(s, n, page, natts, xid, cid, data).page_count() >= s.page_count(),
        with_tuple(s, n, page, natts, xid, cid, data).page_count() > n,
        with_tuple(s, n, page, natts, xid, cid, data).max_block == s.max_block,
        forall|ctid: ItemPointerData|
            stored(s, ctid) is Some ==> #[trigger] stored(
                with_tuple(s, n, page, natts, xid, cid, data),
                ctid,
            ) == stored(s, ctid),
        forall|ctid: ItemPointerData|
            fetch(s, natts, ctid) is Tuple ==> #[trigger] fetch(
                with_tuple(s, n, page, natts, xid, cid, data),
                natts,
                ctid,
            ) == fetch(s, natts, ctid),
        forall|k: u32|
            s.read(k) is Page ==> #[trigger] with_tuple(s, n, page, natts, xid, cid, data).read(
                k,
            ) is Page,
        fetch(
            with_tuple(s, n, page, natts, xid, cid, data),
            natts,
            pointer(n, next_slot(page)),
        ) == Fetch::Tuple(
            fresh_tuple(natts, xid, cid, pointer(n, next_slot(page)), data),
        ),
        page.item(next_slot(page)) is None,
        page.items.len() + 1 <= u16::MAX,
{
    let new = pointer(n, next_slot(page));
    let tuple = fresh_tuple(natts, xid, cid, new, data);
    let image = tuple.image();
    let after = with_tuple(s, n, page, natts, xid, cid, data);
    let grown = page.with_item(image);
    assert(0u16 & crate::constants::HEAP_HASNULL == 0) by (bit_vector);
    assert(!tuple.header.flag(crate::constants::HEAP_HASNULL));
    assert(image.len() == 24 + data.len());
    page.lemma_with_item(image);
    s.lemma_with_page(n, grown);
    tuple.lemma_parse_image(natts);
    assert(HeapTupleView::parse(image, natts) =~= tuple);
    assert forall|ctid: ItemPointerData| stored(s, ctid) is Some implies #[trigger] stored(
        after,
        ctid,
    ) == stored(s, ctid) by {
        if ctid.block_number == n {
            assert(grown.item(ctid.offset_number) == page.item(ctid.offset_number));
        }
    }
    assert forall|ctid: ItemPointerData| fetch(s, natts, ctid) is Tuple implies #[trigger] fetch(
        after,
        natts,
        ctid,
    ) == fetch(s, natts, ctid) by {
        assert(stored(after, ctid) == stored(s, ctid));
    }
}

/// A row of a scan: a pointer and the tuple found there.
pub type Row = (ItemPointerData, HeapTupleView);

/// The rows of a scan result.
pub open spec fn rows_of(found: Seq<(ItemPointerData, HeapTuple)>) -> Seq<Row> {
    found.map_values(|e: (ItemPointerData, HeapTuple)| (e.0, e.1@))
}

/// The tuple in the slot `slot` of a page, where the slot is in use and
/// holds at least a tuple header.
pub open spec fn tuple_in(page: PageView, natts: u16, slot: u16) -> Option<HeapTupleView> {
    match page.item(slot) {
        Some(bytes) => if bytes.len() >= HEAP_FIXED_HEADER_SIZE {
            Some(HeapTupleView::parse(bytes, natts))
        } else {
            None
        },
        None => None,
    }
}

/// The rows that a scan gets from the first `n` slots of the page of block
/// `block`: the tuples that the snapshot makes visible, in slot order.
pub open spec fn page_rows(
    page: PageView,
    block: u32,
    natts: u16,
    snapshot: &Snapshot,
    cur_xid: u32,
    n: nat,
) -> Seq<Row>
    decreases n,
{
    if n == 0 {
        Seq::empty()
    } else {
        let before = page_rows(page, block, natts, snapshot, cur_xid, (n - 1) as nat);
        match tuple_in(page, natts, n as u16) {
            Some(t) => if visible(t.header, snapshot, cur_xid) {
                before.push((pointer(block, n as u16), t))
            } else {
                before
            },
            None => before,
        }
    }
}

/// The rows that a scan gets from the first `n` blocks, in block order. A
/// block that cannot be read has no rows.
pub open spec fn scan_rows(
    s: StorageView,
    natts: u16,
    snapshot: &Snapshot,
    cur_xid: u32,
    n: nat,
) -> Seq<Row>
    decreases n,
{
    if n == 0 {
        Seq::empty()
    } else {
        let before = scan_rows(s, natts, snapshot, cur_xid, (n - 1) as nat);
        match s.read((n - 1) as u32) {
            ReadOutcome::Page(p) => before + page_rows(
                p,
                (n - 1) as u32,
                natts,
                snapshot,
                cur_xid,
                p.items.len(),
            ),
            _ => before,
        }
    }
}

/// The lowest of the first `n` blocks that cannot be read.
pub open spec fn unreadable_below(s: StorageView, n: nat) -> Option<u32>
    decreases n,
{
    if n == 0 {
        None
    } else {
        match unreadable_below(s, (n - 1) as nat) {
            Some(k) => Some(k),
            None => if s.read((n - 1) as u32) is Page {
                None
            } else {
                Some((n - 1) as u32)
            },
        }
    }
}

/// Whether vacuum may reclaim the slot `slot` of a page: it holds a tuple
/// whose deleter committed and precedes the lower bound of every snapshot
/// that a transaction in progress can hold.
pub open spec fn reclaimable_slot(
    page: PageView,
    natts: u16,
    table: TransactionTable,
    slot: u16,
) -> bool {
    match tuple_in(page, natts, slot) {
        Some(t) => table.reclaimable(t.header.t_xmax),
        None => false,
    }
}

/// The page after vacuum went over its first `n` slots and marked the
/// reclaimable ones dead.
pub open spec fn swept(page: PageView, natts: u16, table: TransactionTable, n: nat) -> PageView
    decreases n,
{
    if n == 0 {
        page
    } else {
        let before = swept(page, natts, table, (n - 1) as nat);
        if reclaimable_slot(page, natts, table, n as u16) {
            before.with_dead(n as u16)
        } else {
            before
        }
    }
}

/// How many of the first `n` slots of a page vacuum reclaims.
pub open spec fn swept_count(page: PageView, natts: u16, table: TransactionTable, n: nat) -> nat
    decreases n,
{
    if n == 0 {
        0
    } else if reclaimable_slot(page, natts, table, n as u16) {
        swept_count(page, natts, table, (n - 1) as nat) + 1
    } else {
        swept_count(page, natts, table, (n - 1) as nat)
    }
}

/// The device after vacuum went over its first `n` blocks: every page with
/// a reclaimable slot was swept, given back the space below its lowest live
/// body, and written back. A block that cannot be read stays as it is.
pub open spec fn vacuumed(s: StorageView, natts: u16, table: TransactionTable, n: nat) -> StorageView
    decreases n,
{
    if n == 0 {
        s
    } else {
        let before = vacuumed(s, natts, table, (n - 1) as nat);
        match s.read((n - 1) as u32) {
            ReadOutcome::Page(p) => if swept_count(p, natts, table, p.items.len()) > 0 {
                before.with_page((n - 1) as u32, swept(p, natts, table, p.items.len()).reclaimed())
            } else {
                before
            },
            _ => before,
        }
    }
}

/// How many slots vacuum reclaims in the first `n` blocks.
pub open spec fn vacuumed_count(s: StorageView, natts: u16, table: TransactionTable, n: nat) -> nat
    decreases n,
{
    if n == 0 {
        0
    } else {
        let before = vacuumed_count(s, natts, table, (n - 1) as nat);
        match s.read((n - 1) as u32) {
            ReadOutcome::Page(p) => before + swept_count(p, natts, table, p.items.len()),
            _ => before,
        }
    }
}

/// What an insert does: the device after it and the pointer it returns are
/// those of `inserted`; it fails with the read error of the block that could
/// not be read on the way, or with `NoFreeSpace` where even an empty page
/// has no room for the tuple.
pub open spec fn insert_spec(
    before: StorageView,
    after: StorageView,
    natts: u16,
    xid: u32,
    cid: u32,
    data: Seq<u8>,
    r: Result<ItemPointerData, HeapError>,
) -> bool {
    &&& after == inserted(before, natts, xid, cid, data).0
    &&& match r {
        Ok(new) => inserted(before, natts, xid, cid, data).1 == Some(new),
        Err(e) => {
            &&& inserted(before, natts, xid, cid, data).1 is None
            &&& match placement(before, space_needed(data.len()), 0) {
                Placement::Unreadable(n) => is_read_error(before, n, e),
                _ => e is NoFreeSpace,
            }
        },
    }
}

/// What a raw read of the tuple at `ctid` returns.
pub open spec fn get_spec(
    s: StorageView,
    natts: u16,
    ctid: ItemPointerData,
    r: Result<Option<HeapTuple>, HeapError>,
) -> bool {
    match fetch(s, natts, ctid) {
        Fetch::Tuple(t) => r is Ok && r->Ok_0 is Some && r->Ok_0->Some_0@ == t,
        Fetch::Absent => r is Ok && r->Ok_0 is None,
        Fetch::Malformed => r is Err && r->Err_0 is InvalidTuple,
        Fetch::Unreadable => r is Err && is_read_error(s, ctid.block_number, r->Err_0),
    }
}

/// What a delete does: it fails, changing nothing, where there is no tuple
/// to fetch or the tuple cannot be rewritten in place; it returns `false`,
/// changing nothing, where the tuple already has a deleter; otherwise it
/// returns `true` and the tuple's header names the deleter and its command.
pub open spec fn delete_spec(
    before: StorageView,
    after: StorageView,
    natts: u16,
    xid: u32,
    cid: u32,
    ctid: ItemPointerData,
    r: Result<bool, HeapError>,
) -> bool {
    match fetch(before, natts, ctid) {
        Fetch::Unreadable => {
            &&& r is Err
            &&& is_read_error(before, ctid.block_number, r->Err_0)
            &&& after == before
        },
        Fetch::Absent | Fetch::Malformed => {
            &&& r is Err
            &&& r->Err_0 is InvalidTuple
            &&& after == before
        },
        Fetch::Tuple(t) => if t.header.t_xmax != 0 {
            &&& r == Ok::<bool, HeapError>(false)
            &&& after == before
        } else if !rewritable(before, natts, ctid) {
            &&& r is Err
            &&& r->Err_0 is InvalidTuple
            &&& after == before
        } else {
            &&& r == Ok::<bool, HeapError>(true)
            &&& after == with_header(before, natts, ctid, obsoleted_by(t.header, xid, cid))
        },
    }
}

/// What an update does: it fails, changing nothing, where there is no tuple
/// to fetch or the tuple cannot be rewritten in place; it returns `None`,
/// changing nothing, where the tuple already has a deleter; otherwise it
/// inserts the new version, and where that succeeds, the old tuple's header
/// names the updater, its command and the new version, whose pointer is
/// returned.
pub open spec fn update_spec(
    before: StorageView,
    after: StorageView,
    natts: u16,
    xid: u32,
    cid: u32,
    old_ctid: ItemPointerData,
    new_data: Seq<u8>,
    r: Result<Option<ItemPointerData>, HeapError>,
) -> bool {
    match fetch(before, natts, old_ctid) {
        Fetch::Unreadable => {
            &&& r is Err
            &&& is_read_error(before, old_ctid.block_number, r->Err_0)
            &&& after == before
        },
        Fetch::Absent | Fetch::Malformed => {
            &&& r is Err
            &&& r->Err_0 is InvalidTuple
            &&& after == before
        },
        Fetch::Tuple(t) => if t.header.t_xmax != 0 {
            &&& r == Ok::<Option<ItemPointerData>, HeapError>(None)
            &&& after == before
        } else if !rewritable(before, natts, old_ctid) {
            &&& r is Err
            &&& r->Err_0 is InvalidTuple
            &&& after == before
        } else {
            let (grown, new) = inserted(before, natts, xid, cid, new_data);
            match new {
                Some(new_ctid) => {
                    &&& r == Ok::<Option<ItemPointerData>, HeapError>(Some(new_ctid))
                    &&& after == with_header(
                        grown,
                        natts,
                        old_ctid,
                        replaced_by(t.header, xid, cid, new_ctid),
                    )
                },
                None => {
                    &&& r is Err
                    &&& after == grown
                    &&& match placement(before, space_needed(new_data.len()), 0) {
                        Placement::Unreadable(n) => is_read_error(before, n, r->Err_0),
                        _ => r->Err_0 is NoFreeSpace,
                    }
                },
            }
        },
    }
}

/// What a scan returns: the visible rows of all blocks, or the read error of
/// the first block that cannot be read.
pub open spec fn scan_spec(
    s: StorageView,
    natts: u16,
    snapshot: &Snapshot,
    cur_xid: u32,
    r: Result<Vec<(ItemPointerData, HeapTuple)>, HeapError>,
) -> bool {
    match unreadable_below(s, s.page_count() as nat) {
        Some(n) => r is Err && is_read_error(s, n, r->Err_0),
        None => r is Ok && rows_of(r->Ok_0@) == scan_rows(
            s,
            natts,
            snapshot,
            cur_xid,
            s.page_count() as nat,
        ),
    }
}

/// What a vacuum does: all blocks are vacuumed and the number of reclaimed
/// slots is returned, cut to `u32::MAX`; or the blocks before the first
/// that cannot be read are vacuumed, and its read error is returned.
pub open spec fn vacuum_spec(
    before: StorageView,
    after: StorageView,
    natts: u16,
    table: TransactionTable,
    r: Result<u32, HeapError>,
) -> bool {
    match unreadable_below(before, before.page_count() as nat) {
        Some(n) => {
            &&& r is Err
            &&& is_read_error(before, n, r->Err_0)
            &&& after == vacuumed(before, natts, table, n as nat)
        },
        None => {
            let total = vacuumed_count(before, natts, table, before.page_count() as nat);
            &&& r is Ok
            &&& r->Ok_0 == if total > u32::MAX {
                u32::MAX as nat
            } else {
                total
            }
            &&& after == vacuumed(before, natts, table, before.page_count() as nat)
        },
    }
}

} // verus!
