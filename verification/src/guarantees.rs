//! What the heap operations guarantee to one another: what a scan holds,
//! what an insert, an update and a delete leave behind for later calls, and
//! what vacuum spares.

use crate::constants::{HEAP_XMAX_COMMITTED, HEAP_XMAX_INVALID, HEAP_XMIN_COMMITTED, LP_USED};
use crate::error::HeapError;
use crate::heap_model::{
    delete_spec, fetch, fresh_tuple, inserted, lemma_inserted, lemma_placement, lemma_read_page,
    next_slot, obsoleted_by, page_rows, placement, pointer, reclaimable_slot, replaced_by,
    rewritable, scan_rows, space_needed, stored, swept, tuple_in, update_spec,
    vacuumed, with_header, Fetch, Placement, Row,
};
use crate::heap_tuple::{HeapTupleHeaderData, HeapTupleView};
use crate::page::{lemma_pack_item_id, PageView};
use crate::storage::{ReadOutcome, StorageView};
use crate::transaction::TransactionTable;
use crate::types::{ItemPointerData, Snapshot, VisibilityMode};
use crate::visibility::{
    lemma_own_insert_visible, lemma_uncommitted_insert_hidden, mvcc_visible, visible,
};
use vstd::prelude::*;

verus! {

/// The rows that a scan gets from the first `n` slots of a page are exactly
/// the visible tuples in those slots, each under its own pointer.
pub proof fn lemma_page_rows(
    page: PageView,
    block: u32,
    natts: u16,
    snapshot: &Snapshot,
    cur_xid: u32,
    n: nat,
    row: Row,
)
    requires
        n <= u16::MAX,
    ensures
        page_rows(page, block, natts, snapshot, cur_xid, n).contains(row) <==> {
            &&& row.0.block_number == block
            &&& 1 <= row.0.offset_number <= n
            &&& tuple_in(page, natts, row.0.offset_number) == Some(row.1)
            &&& visible(row.1.header, snapshot, cur_xid)
        },
    decreases n,
{
    if n > 0 {
        let before = page_rows(page, block, natts, snapshot, cur_xid, (n - 1) as nat);
        let all = page_rows(page, block, natts, snapshot, cur_xid, n);
        lemma_page_rows(page, block, natts, snapshot, cur_xid, (n - 1) as nat, row);
        let added = match tuple_in(page, natts, n as u16) {
            Some(t) => visible(t.header, snapshot, cur_xid),
            None => false,
        };
        if added {
            let t = tuple_in(page, natts, n as u16)->Some_0;
            let last = (pointer(block, n as u16), t);
            assert(all == before.push(last));
            if all.contains(row) {
                let i = choose|i: int| 0 <= i < all.len() && all[i] == row;
                if i < before.len() {
                    assert(before[i] == row);
                    assert(before.contains(row));
                }
            }
            if before.contains(row) {
                let i = choose|i: int| 0 <= i < before.len() && before[i] == row;
                assert(all[i] == row);
            }
            if row == last {
                assert(all[before.len() as int] == row);
            }
        } else {
            assert(all == before);
        }
    }
}

/// The rows of a scan over the first `n` blocks are exactly the visible
/// tuples in the slots of the readable blocks among them, each under its
/// own pointer.
pub proof fn lemma_scan_rows(
    s: StorageView,
    natts: u16,
    snapshot: &Snapshot,
    cur_xid: u32,
    n: nat,
    row: Row,
)
    requires
        n <= u32::MAX,
    ensures
        scan_rows(s, natts, snapshot, cur_xid, n).contains(row) <==> {
            &&& row.0.block_number < n
            &&& s.read(row.0.block_number) is Page
            &&& 1 <= row.0.offset_number <= s.read(row.0.block_number)->Page_0.items.len()
            &&& tuple_in(s.read(row.0.block_number)->Page_0, natts, row.0.offset_number) == Some(
                row.1,
            )
            &&& visible(row.1.header, snapshot, cur_xid)
        },
    decreases n,
{
    if n > 0 {
        let before = scan_rows(s, natts, snapshot, cur_xid, (n - 1) as nat);
        let all = scan_rows(s, natts, snapshot, cur_xid, n);
        lemma_scan_rows(s, natts, snapshot, cur_xid, (n - 1) as nat, row);
        let block = (n - 1) as u32;
        match s.read(block) {
            ReadOutcome::Page(p) => {
                lemma_read_page(s, block);
                let here = page_rows(p, block, natts, snapshot, cur_xid, p.items.len());
                lemma_page_rows(p, block, natts, snapshot, cur_xid, p.items.len(), row);
                assert(all == before + here);
                if all.contains(row) {
                    let i = choose|i: int| 0 <= i < all.len() && all[i] == row;
                    if i < before.len() {
                        assert(before[i] == row);
                        assert(before.contains(row));
                    } else {
                        assert(here[i - before.len()] == row);
                        assert(here.contains(row));
                    }
                }
                if before.contains(row) {
                    let i = choose|i: int| 0 <= i < before.len() && before[i] == row;
                    assert(all[i] == row);
                }
                if here.contains(row) {
                    let i = choose|i: int| 0 <= i < here.len() && here[i] == row;
                    assert(all[before.len() + i] == row);
                }
            },
            _ => {
                assert(all == before);
            },
        }
    }
}

/// The tuple that a fetch gives is the tuple in its slot.
pub proof fn lemma_fetch_is_tuple_in(s: StorageView, natts: u16, ctid: ItemPointerData)
    requires
        fetch(s, natts, ctid) is Tuple,
    ensures
        s.read(ctid.block_number) is Page,
        tuple_in(s.read(ctid.block_number)->Page_0, natts, ctid.offset_number) == Some(
            fetch(s, natts, ctid)->Tuple_0,
        ),
        1 <= ctid.offset_number <= s.read(ctid.block_number)->Page_0.items.len(),
{
}

/// Self-visibility: the tuple that a transaction has just inserted is a row
/// of that transaction's own MVCC scan, under the pointer that the insert
/// returned, whatever snapshot the scan runs under.
pub proof fn lemma_own_insert_scanned(
    s: StorageView,
    natts: u16,
    xid: u32,
    cid: u32,
    data: Seq<u8>,
    snapshot: &Snapshot,
)
    requires
        s.wf(),
        s.max_block + 1 < u32::MAX,
        inserted(s, natts, xid, cid, data).1 is Some,
        snapshot.mode == VisibilityMode::MVCC,
    ensures
        ({
            let (after, new) = inserted(s, natts, xid, cid, data);
            scan_rows(after, natts, snapshot, xid, after.page_count() as nat).contains(
                (new->Some_0, fresh_tuple(natts, xid, cid, new->Some_0, data)),
            )
        }),
{
    let (after, new) = inserted(s, natts, xid, cid, data);
    let ctid = new->Some_0;
    let tuple = fresh_tuple(natts, xid, cid, ctid, data);
    lemma_inserted(s, natts, xid, cid, data);
    lemma_fetch_is_tuple_in(after, natts, ctid);
    lemma_own_insert_visible(tuple.header, snapshot, xid);
    lemma_scan_rows(after, natts, snapshot, xid, after.page_count() as nat, (ctid, tuple));
}

/// Isolation: the tuple that a transaction has inserted is no row of the
/// MVCC scan of another reader whose snapshot was captured while that
/// transaction was in progress, or before it began.
pub proof fn lemma_foreign_insert_not_scanned(
    s: StorageView,
    natts: u16,
    xid: u32,
    cid: u32,
    data: Seq<u8>,
    snapshot: &Snapshot,
    cur_xid: u32,
    tuple: HeapTupleView,
)
    requires
        s.wf(),
        s.max_block + 1 < u32::MAX,
        inserted(s, natts, xid, cid, data).1 is Some,
        snapshot.mode == VisibilityMode::MVCC,
        snapshot.wf(),
        cur_xid != xid,
        snapshot.in_xip(xid) || xid >= snapshot.xmax.0,
    ensures
        ({
            let (after, new) = inserted(s, natts, xid, cid, data);
            !scan_rows(after, natts, snapshot, cur_xid, after.page_count() as nat).contains(
                (new->Some_0, tuple),
            )
        }),
{
    let (after, new) = inserted(s, natts, xid, cid, data);
    let ctid = new->Some_0;
    let stored_tuple = fresh_tuple(natts, xid, cid, ctid, data);
    lemma_inserted(s, natts, xid, cid, data);
    lemma_fetch_is_tuple_in(after, natts, ctid);
    assert(0u16 & HEAP_XMIN_COMMITTED == 0) by (bit_vector);
    lemma_uncommitted_insert_hidden(stored_tuple.header, snapshot, cur_xid);
    lemma_scan_rows(after, natts, snapshot, cur_xid, after.page_count() as nat, (ctid, tuple));
}

/// Rewriting the header of a tuple in place keeps the device well formed,
/// makes the new header the one that a fetch finds, and leaves the tuples of
/// all other blocks as they were.
pub proof fn lemma_header_rewritten(
    s: StorageView,
    natts: u16,
    ctid: ItemPointerData,
    header: HeapTupleHeaderData,
)
    requires
        s.wf(),
        fetch(s, natts, ctid) is Tuple,
        rewritable(s, natts, ctid),
        header.t_infomask == fetch(s, natts, ctid)->Tuple_0.header.t_infomask,
    ensures
        with_header(s, natts, ctid, header).wf(),
        with_header(s, natts, ctid, header).page_count() == s.page_count(),
        with_header(s, natts, ctid, header).max_block == s.max_block,
        fetch(with_header(s, natts, ctid, header), natts, ctid) is Tuple,
        fetch(with_header(s, natts, ctid, header), natts, ctid)->Tuple_0.header == header,
        forall|other: ItemPointerData|
            other.block_number != ctid.block_number ==> #[trigger] stored(
                with_header(s, natts, ctid, header),
                other,
            ) == stored(s, other),
        forall|n: u32|
            s.read(n) is Page ==> #[trigger] with_header(s, natts, ctid, header).read(n) is Page,
{
    let page = s.read(ctid.block_number)->Page_0;
    let bytes = page.item(ctid.offset_number)->Some_0;
    let tuple = HeapTupleView::parse(bytes, natts);
    let changed = HeapTupleView { header, ..tuple };
    let image = changed.image();
    lemma_read_page(s, ctid.block_number);
    changed.lemma_image_header(natts);
    assert(changed.size() == tuple.size());
    page.lemma_with_body(ctid.offset_number, image);
    let rewritten = page.with_body(ctid.offset_number, image);
    s.lemma_with_page(ctid.block_number, rewritten);
}

/// The update chain: after an update has returned the pointer to the new
/// version, the old tuple names the updater as its deleter and points at the
/// new version, and the new version names the updater as its creator and
/// has no deleter.
pub proof fn lemma_update_chain(
    before: StorageView,
    after: StorageView,
    natts: u16,
    xid: u32,
    cid: u32,
    old_ctid: ItemPointerData,
    new_data: Seq<u8>,
    new_ctid: ItemPointerData,
)
    requires
        before.wf(),
        before.max_block + 1 < u32::MAX,
        update_spec(
            before,
            after,
            natts,
            xid,
            cid,
            old_ctid,
            new_data,
            Ok::<Option<ItemPointerData>, HeapError>(Some(new_ctid)),
        ),
    ensures
        after.wf(),
        fetch(after, natts, old_ctid) is Tuple,
        fetch(after, natts, old_ctid)->Tuple_0.header.t_xmax == xid,
        fetch(after, natts, old_ctid)->Tuple_0.header.t_ctid == new_ctid,
        fetch(after, natts, new_ctid) is Tuple,
        fetch(after, natts, new_ctid)->Tuple_0.header.t_xmin == xid,
        fetch(after, natts, new_ctid)->Tuple_0.header.t_xmax == 0,
{
    let t = fetch(before, natts, old_ctid)->Tuple_0;
    let (grown, new) = inserted(before, natts, xid, cid, new_data);
    let header = replaced_by(t.header, xid, cid, new_ctid);
    lemma_inserted(before, natts, xid, cid, new_data);
    assert(stored(before, old_ctid) is Some);
    assert(stored(grown, old_ctid) == stored(before, old_ctid));
    assert(fetch(grown, natts, old_ctid) == fetch(before, natts, old_ctid));
    lemma_header_rewritten(grown, natts, old_ctid, header);
    let fresh = fresh_tuple(natts, xid, cid, new_ctid, new_data);
    assert(fetch(grown, natts, new_ctid) == Fetch::Tuple(fresh));
    if new_ctid.block_number != old_ctid.block_number {
        assert(stored(after, new_ctid) == stored(grown, new_ctid));
    } else {
        let need = space_needed(new_data.len());
        lemma_placement(before, need, 0);
        let n = old_ctid.block_number;
        assert(before.pages.contains_key(n));
        assert(placement(before, need, 0) == Placement::Block(n));
        let origin = before.read(n)->Page_0;
        lemma_read_page(before, n);
        let image_new = fresh.image();
        assert(0u16 & crate::constants::HEAP_HASNULL == 0) by (bit_vector);
        assert(image_new.len() == 24 + new_data.len());
        let page = origin.with_item(image_new);
        origin.lemma_with_item(image_new);
        before.lemma_with_page(n, page);
        assert(grown.read(n) == ReadOutcome::Page(page));
        let upper = (origin.header.pd_upper - image_new.len()) as u16;
        lemma_pack_item_id(upper, image_new.len() as u16, LP_USED);
        let a = page.items[old_ctid.offset_number - 1];
        let b = page.items[new_ctid.offset_number - 1];
        assert(a == origin.items[old_ctid.offset_number - 1]);
        assert(origin.item_in_bounds(a));
        assert(b.spec_offset() == upper);
        assert(b.spec_length() == image_new.len());
        let bytes = page.item(old_ctid.offset_number)->Some_0;
        let changed = HeapTupleView { header, ..HeapTupleView::parse(bytes, natts) };
        changed.lemma_image_header(natts);
        page.lemma_with_body_other(
            old_ctid.offset_number,
            changed.image(),
            new_ctid.offset_number,
        );
        let rewritten = page.with_body(old_ctid.offset_number, changed.image());
        page.lemma_with_body(old_ctid.offset_number, changed.image());
        grown.lemma_with_page(n, rewritten);
        assert(stored(after, new_ctid) == stored(grown, new_ctid));
    }
}

/// A delete that has returned `true` leaves a tuple that no later delete
/// takes: the second delete of the same tuple returns `false` and changes
/// nothing. The deleter must be a valid transaction.
pub proof fn lemma_second_delete(
    before: StorageView,
    between: StorageView,
    after: StorageView,
    natts: u16,
    xid: u32,
    cid: u32,
    ctid: ItemPointerData,
    second_xid: u32,
    second_cid: u32,
    second: Result<bool, HeapError>,
)
    requires
        before.wf(),
        xid != 0,
        delete_spec(before, between, natts, xid, cid, ctid, Ok::<bool, HeapError>(true)),
        delete_spec(between, after, natts, second_xid, second_cid, ctid, second),
    ensures
        second == Ok::<bool, HeapError>(false),
        after == between,
        fetch(after, natts, ctid) is Tuple,
        fetch(after, natts, ctid)->Tuple_0.header.t_xmax == xid,
{
    let t = fetch(before, natts, ctid)->Tuple_0;
    lemma_header_rewritten(before, natts, ctid, obsoleted_by(t.header, xid, cid));
}

/// A tuple that vacuum may reclaim is invisible under MVCC to every
/// transaction in progress, under every snapshot that a transaction in
/// progress can hold, as long as the tuple's hint bits do not contradict
/// the transaction table: the deleter is hinted as committed, or not as
/// aborted.
pub proof fn lemma_reclaimable_is_invisible(
    table: TransactionTable,
    h: HeapTupleHeaderData,
    snapshot: &Snapshot,
    cur_xid: u32,
)
    requires
        table.wf(),
        table.reclaimable(h.t_xmax),
        table.may_be_held(snapshot),
        snapshot.xmin.0 <= snapshot.xmax.0,
        table.in_progress.contains(cur_xid),
        h.flag(HEAP_XMAX_COMMITTED) || !h.flag(HEAP_XMAX_INVALID),
    ensures
        !mvcc_visible(h, snapshot, cur_xid),
{
    table.lemma_reclaimable(h.t_xmax, snapshot);
    let i = choose|i: int| 0 <= i < table.in_progress.len() && table.in_progress[i] == cur_xid;
    assert(h.t_xmax < table.in_progress[i]);
}

/// Sweeping a page keeps its layout invariants and its slots, and leaves
/// every item that is not reclaimable as it was.
pub proof fn lemma_swept(page: PageView, natts: u16, table: TransactionTable, n: nat)
    requires
        page.wf(),
        n <= page.items.len(),
    ensures
        swept(page, natts, table, n).wf(),
        swept(page, natts, table, n).items.len() == page.items.len(),
        swept(page, natts, table, n).page_size == page.page_size,
        forall|k: u16|
            !reclaimable_slot(page, natts, table, k) ==>
                #[trigger] swept(page, natts, table, n).item(
                k,
            ) == page.item(k),
        forall|k: u16| k > n ==> #[trigger] swept(page, natts, table, n).item(k) == page.item(k),
    decreases n,
{
    if n > 0 {
        let before = swept(page, natts, table, (n - 1) as nat);
        lemma_swept(page, natts, table, (n - 1) as nat);
        if reclaimable_slot(page, natts, table, n as u16) {
            before.lemma_with_dead(n as u16);
        }
    }
}

/// Vacuuming the first `n` blocks keeps the device well formed and its
/// block count, touches no later block, and leaves every item that is not
/// reclaimable as it was.
pub proof fn lemma_vacuumed(s: StorageView, natts: u16, table: TransactionTable, n: nat)
    requires
        s.wf(),
        n <= s.page_count(),
    ensures
        vacuumed(s, natts, table, n).wf(),
        vacuumed(s, natts, table, n).page_count() == s.page_count(),
        vacuumed(s, natts, table, n).max_block == s.max_block,
        forall|k: u32| k >= n ==> #[trigger] vacuumed(s, natts, table, n).read(k) == s.read(k),
        forall|ctid: ItemPointerData|
            s.read(ctid.block_number) is Page && !reclaimable_slot(
                s.read(ctid.block_number)->Page_0,
                natts,
                table,
                ctid.offset_number,
            ) ==> #[trigger] stored(vacuumed(s, natts, table, n), ctid) == stored(s, ctid),
    decreases n,
{
    if n > 0 {
        let before = vacuumed(s, natts, table, (n - 1) as nat);
        let after = vacuumed(s, natts, table, n);
        lemma_vacuumed(s, natts, table, (n - 1) as nat);
        let block = (n - 1) as u32;
        match s.read(block) {
            ReadOutcome::Page(p) => {
                lemma_read_page(s, block);
                lemma_swept(p, natts, table, p.items.len());
                let clean = swept(p, natts, table, p.items.len());
                clean.lemma_reclaimed();
                let packed = clean.reclaimed();
                assert(packed.page_size == p.page_size);
                if crate::heap_model::swept_count(p, natts, table, p.items.len()) > 0 {
                    before.lemma_with_page(block, packed);
                    assert(before.read(block) == s.read(block));
                    assert(before.pages.contains_key(block));
                    assert forall|ctid: ItemPointerData|
                        s.read(ctid.block_number) is Page && !reclaimable_slot(
                            s.read(ctid.block_number)->Page_0,
                            natts,
                            table,
                            ctid.offset_number,
                        ) implies #[trigger] stored(after, ctid) == stored(s, ctid) by {
                        assert(stored(before, ctid) == stored(s, ctid));
                        if ctid.block_number == block {
                            assert(packed.item(ctid.offset_number) == clean.item(
                                ctid.offset_number,
                            ));
                            assert(clean.item(ctid.offset_number) == p.item(ctid.offset_number));
                        } else {
                            assert(after.read(ctid.block_number) == before.read(
                                ctid.block_number,
                            ));
                        }
                    }
                }
            },
            _ => {},
        }
    }
}

/// Vacuum leaves in place every tuple whose deleter has not committed, and
/// every tuple whose deleter does not precede the lower bound of a snapshot
/// that a transaction in progress can hold: such a tuple is not reclaimable,
/// so it is not counted, and it is fetched unchanged after any number of
/// blocks were vacuumed.
pub proof fn lemma_vacuum_spares_live(
    s: StorageView,
    natts: u16,
    table: TransactionTable,
    n: nat,
    ctid: ItemPointerData,
    snapshot: &Snapshot,
)
    requires
        s.wf(),
        table.wf(),
        n <= s.page_count(),
        fetch(s, natts, ctid) is Tuple,
        ({
            let deleter = fetch(s, natts, ctid)->Tuple_0.header.t_xmax;
            !table.is_committed(deleter) || (table.may_be_held(snapshot) && deleter
                >= snapshot.xmin.0)
        }),
    ensures
        !reclaimable_slot(s.read(ctid.block_number)->Page_0, natts, table, ctid.offset_number),
        fetch(vacuumed(s, natts, table, n), natts, ctid) == fetch(s, natts, ctid),
{
    let t = fetch(s, natts, ctid)->Tuple_0;
    if table.reclaimable(t.header.t_xmax) {
        table.lemma_reclaimable(t.header.t_xmax, snapshot);
    }
    lemma_vacuumed(s, natts, table, n);
    let page = s.read(ctid.block_number)->Page_0;
    assert(!reclaimable_slot(page, natts, table, ctid.offset_number));
    assert(stored(vacuumed(s, natts, table, n), ctid) == stored(s, ctid));
}

/// Vacuum never removes a tuple that a transaction in progress still sees:
/// a tuple that is visible under MVCC to a transaction in progress, under a
/// snapshot that a transaction in progress can hold, is fetched unchanged
/// after any number of blocks were vacuumed. The tuple's hint bits must not
/// contradict the transaction table.
pub proof fn lemma_vacuum_spares_visible(
    s: StorageView,
    natts: u16,
    table: TransactionTable,
    n: nat,
    ctid: ItemPointerData,
    snapshot: &Snapshot,
    cur_xid: u32,
)
    requires
        s.wf(),
        table.wf(),
        n <= s.page_count(),
        fetch(s, natts, ctid) is Tuple,
        mvcc_visible(fetch(s, natts, ctid)->Tuple_0.header, snapshot, cur_xid),
        table.in_progress.contains(cur_xid),
        table.may_be_held(snapshot),
        snapshot.xmin.0 <= snapshot.xmax.0,
        ({
            let h = fetch(s, natts, ctid)->Tuple_0.header;
            h.flag(HEAP_XMAX_COMMITTED) || !h.flag(HEAP_XMAX_INVALID)
        }),
    ensures
        fetch(vacuumed(s, natts, table, n), natts, ctid) == fetch(s, natts, ctid),
{
    let t = fetch(s, natts, ctid)->Tuple_0;
    if table.reclaimable(t.header.t_xmax) {
        lemma_reclaimable_is_invisible(table, t.header, snapshot, cur_xid);
    }
    lemma_vacuumed(s, natts, table, n);
    let page = s.read(ctid.block_number)->Page_0;
    assert(!reclaimable_slot(page, natts, table, ctid.offset_number));
    assert(stored(vacuumed(s, natts, table, n), ctid) == stored(s, ctid));
}

/// Whether `bytes` have the shape of a tuple: they hold the fixed header, and
/// the payload offset that the header records is a multiple of eight between
/// the end of the fixed header and the end of the bytes.
pub open spec fn tuple_shaped(bytes: Seq<u8>) -> bool {
    &&& bytes.len() >= 24
    &&& HeapTupleHeaderData::decode(bytes).t_hoff % 8 == 0
    &&& 24 <= HeapTupleHeaderData::decode(bytes).t_hoff <= bytes.len()
}

/// Whether every item of a page has the shape of a tuple, and no two items
/// share a byte.
pub open spec fn holds_tuples(page: PageView) -> bool {
    &&& page.bodies_apart()
    &&& forall|k: u16| #[trigger] page.item(k) is Some ==> tuple_shaped(page.item(k)->Some_0)
}

/// Whether every item of every readable block has the shape of a tuple, so
/// that each decodes as a tuple with a valid header.
pub open spec fn tuples_only(s: StorageView) -> bool {
    forall|n: u32| #[trigger] s.read(n) is Page ==> holds_tuples(s.read(n)->Page_0)
}

/// On a device that holds tuples only, whatever is stored at a pointer is
/// fetched as a tuple.
pub proof fn lemma_stored_is_tuple(s: StorageView, natts: u16, ctid: ItemPointerData)
    requires
        tuples_only(s),
        stored(s, ctid) is Some,
    ensures
        fetch(s, natts, ctid) is Tuple,
        fetch(s, natts, ctid)->Tuple_0.header.t_hoff % 8 == 0,
        24 <= fetch(s, natts, ctid)->Tuple_0.header.t_hoff <= stored(s, ctid)->Some_0.len(),
{
    assert(s.read(ctid.block_number) is Page);
    let page = s.read(ctid.block_number)->Page_0;
    assert(page.item(ctid.offset_number) is Some);
    assert(tuple_shaped(page.item(ctid.offset_number)->Some_0));
}

/// A fresh heap holds tuples only.
pub proof fn lemma_fresh_heap_holds_tuples()
    ensures
        tuples_only(
            StorageView::empty().with_page(0, PageView::empty(crate::constants::BLCKSZ as nat)),
        ),
{
    let page = PageView::empty(crate::constants::BLCKSZ as nat);
    let s = StorageView::empty().with_page(0, page);
    StorageView::empty().lemma_with_page(0, page);
    assert forall|n: u32| #[trigger] s.read(n) is Page implies holds_tuples(s.read(n)->Page_0) by {
        if n != 0 {
            assert(!StorageView::empty().pages.contains_key(n));
        }
    }
}

/// Adding the image of a tuple to a page of tuples gives a page of tuples.
proof fn lemma_page_keeps_tuples(page: PageView, image: Seq<u8>)
    requires
        page.wf(),
        page.fits(image),
        tuple_shaped(image),
        holds_tuples(page),
    ensures
        holds_tuples(page.with_item(image)),
{
    let grown = page.with_item(image);
    page.lemma_with_item(image);
    page.lemma_with_item_apart(image);
    assert forall|k: u16| #[trigger] grown.item(k) is Some implies tuple_shaped(
        grown.item(k)->Some_0,
    ) by {
        if 1 <= k <= page.items.len() {
            assert(grown.item(k) == page.item(k));
        }
    }
}

/// The image of a tuple that an insert stores has the shape of a tuple.
proof fn lemma_fresh_tuple_shaped(
    natts: u16,
    xid: u32,
    cid: u32,
    ctid: ItemPointerData,
    data: Seq<u8>,
)
    ensures
        tuple_shaped(fresh_tuple(natts, xid, cid, ctid, data).image()),
        fresh_tuple(natts, xid, cid, ctid, data).image().len() == 24 + data.len(),
{
    let tuple = fresh_tuple(natts, xid, cid, ctid, data);
    assert(0u16 & crate::constants::HEAP_HASNULL == 0) by (bit_vector);
    tuple.lemma_image_header(natts);
}

/// An insert leaves a device that holds tuples only as such a device.
pub proof fn lemma_insert_keeps_tuples(
    s: StorageView,
    natts: u16,
    xid: u32,
    cid: u32,
    data: Seq<u8>,
)
    requires
        s.wf(),
        s.max_block + 1 < u32::MAX,
        tuples_only(s),
    ensures
        tuples_only(inserted(s, natts, xid, cid, data).0),
{
    let need = space_needed(data.len());
    let after = inserted(s, natts, xid, cid, data).0;
    lemma_placement(s, need, 0);
    assert(0u16 & crate::constants::HEAP_HASNULL == 0) by (bit_vector);
    match placement(s, need, 0) {
        Placement::Unreadable(_) => {},
        Placement::Block(n) => {
            let page = s.read(n)->Page_0;
            lemma_read_page(s, n);
            let image = fresh_tuple(natts, xid, cid, pointer(n, next_slot(page)), data).image();
            lemma_fresh_tuple_shaped(natts, xid, cid, pointer(n, next_slot(page)), data);
            lemma_page_keeps_tuples(page, image);
            page.lemma_with_item(image);
            s.lemma_with_page(n, page.with_item(image));
            assert forall|k: u32| #[trigger] after.read(k) is Page implies holds_tuples(
                after.read(k)->Page_0,
            ) by {
                if k != n {
                    assert(after.read(k) == s.read(k));
                }
            }
        },
        Placement::Fresh => {
            let n = (s.max_block + 1) as u32;
            let page = PageView::empty(crate::constants::BLCKSZ as nat);
            let allocated = s.with_page(n, page);
            s.lemma_with_page(n, page);
            assert forall|k: u32| #[trigger] allocated.read(k) is Page implies holds_tuples(
                allocated.read(k)->Page_0,
            ) by {
                if k != n {
                    assert(allocated.read(k) == s.read(k));
                }
            }
            if page.free_space() >= need {
                let image = fresh_tuple(natts, xid, cid, pointer(n, next_slot(page)), data).image();
                lemma_fresh_tuple_shaped(natts, xid, cid, pointer(n, next_slot(page)), data);
                lemma_page_keeps_tuples(page, image);
                page.lemma_with_item(image);
                allocated.lemma_with_page(n, page.with_item(image));
                assert forall|k: u32| #[trigger] after.read(k) is Page implies holds_tuples(
                    after.read(k)->Page_0,
                ) by {
                    if k != n {
                        assert(after.read(k) == allocated.read(k));
                    }
                }
            }
        },
    }
}

/// Rewriting the header of a tuple in place, with the payload offset that
/// the header had, leaves a device that holds tuples only as such a device.
pub proof fn lemma_rewrite_keeps_tuples(
    s: StorageView,
    natts: u16,
    ctid: ItemPointerData,
    header: HeapTupleHeaderData,
)
    requires
        s.wf(),
        tuples_only(s),
        fetch(s, natts, ctid) is Tuple,
        rewritable(s, natts, ctid),
        header.t_infomask == fetch(s, natts, ctid)->Tuple_0.header.t_infomask,
        header.t_hoff == fetch(s, natts, ctid)->Tuple_0.header.t_hoff,
    ensures
        tuples_only(with_header(s, natts, ctid, header)),
{
    let after = with_header(s, natts, ctid, header);
    let page = s.read(ctid.block_number)->Page_0;
    let bytes = page.item(ctid.offset_number)->Some_0;
    let changed = HeapTupleView { header, ..HeapTupleView::parse(bytes, natts) };
    let image = changed.image();
    lemma_read_page(s, ctid.block_number);
    changed.lemma_image_header(natts);
    assert(holds_tuples(page));
    assert(tuple_shaped(bytes));
    page.lemma_with_body(ctid.offset_number, image);
    page.lemma_with_body_others(ctid.offset_number, image);
    let rewritten = page.with_body(ctid.offset_number, image);
    s.lemma_with_page(ctid.block_number, rewritten);
    assert(rewritten.items == page.items);
    assert(rewritten.bodies_apart());
    assert forall|k: u32| #[trigger] after.read(k) is Page implies holds_tuples(
        after.read(k)->Page_0,
    ) by {
        if k != ctid.block_number {
            assert(after.read(k) == s.read(k));
        } else {
            assert forall|j: u16| #[trigger] rewritten.item(j) is Some implies tuple_shaped(
                rewritten.item(j)->Some_0,
            ) by {
                if j != ctid.offset_number {
                    assert(rewritten.item(j) == page.item(j));
                }
            }
        }
    }
}

/// Vacuum leaves a device that holds tuples only as such a device.
pub proof fn lemma_vacuum_keeps_tuples(
    s: StorageView,
    natts: u16,
    table: TransactionTable,
    n: nat,
)
    requires
        s.wf(),
        n <= s.page_count(),
        tuples_only(s),
    ensures
        tuples_only(vacuumed(s, natts, table, n)),
    decreases n,
{
    if n > 0 {
        let before = vacuumed(s, natts, table, (n - 1) as nat);
        let after = vacuumed(s, natts, table, n);
        lemma_vacuum_keeps_tuples(s, natts, table, (n - 1) as nat);
        lemma_vacuumed(s, natts, table, (n - 1) as nat);
        let block = (n - 1) as u32;
        match s.read(block) {
            ReadOutcome::Page(p) => {
                lemma_read_page(s, block);
                assert(holds_tuples(p));
                lemma_swept_items(p, natts, table, p.items.len());
                let clean = swept(p, natts, table, p.items.len());
                lemma_swept(p, natts, table, p.items.len());
                clean.lemma_reclaimed();
                let packed = clean.reclaimed();
                assert(packed.items == clean.items);
                assert(packed.bodies_apart());
                if crate::heap_model::swept_count(p, natts, table, p.items.len()) > 0 {
                    before.lemma_with_page(block, packed);
                    assert forall|k: u32| #[trigger] after.read(k) is Page implies holds_tuples(
                        after.read(k)->Page_0,
                    ) by {
                        if k != block {
                            assert(after.read(k) == before.read(k));
                        } else {
                            assert forall|j: u16| #[trigger] packed.item(j) is Some implies tuple_shaped(
                                packed.item(j)->Some_0,
                            ) by {
                                assert(packed.item(j) == clean.item(j));
                                assert(p.item(j) == clean.item(j));
                            }
                        }
                    }
                }
            },
            _ => {},
        }
    }
}

/// Every item that is left after a sweep was there before it, unchanged,
/// and items that lay apart before the sweep lie apart after it.
pub proof fn lemma_swept_items(page: PageView, natts: u16, table: TransactionTable, n: nat)
    requires
        page.wf(),
        n <= page.items.len(),
    ensures
        forall|k: u16|
            #[trigger] swept(page, natts, table, n).item(k) is Some ==> swept(
                page,
                natts,
                table,
                n,
            ).item(k) == page.item(k),
        page.bodies_apart() ==> swept(page, natts, table, n).bodies_apart(),
    decreases n,
{
    if n > 0 {
        let before = swept(page, natts, table, (n - 1) as nat);
        lemma_swept_items(page, natts, table, (n - 1) as nat);
        lemma_swept(page, natts, table, (n - 1) as nat);
        if reclaimable_slot(page, natts, table, n as u16) {
            before.lemma_with_dead(n as u16);
            if before.bodies_apart() {
                before.lemma_with_dead_apart(n as u16);
            }
            let after = before.with_dead(n as u16);
            assert forall|k: u16| #[trigger] after.item(k) is Some implies after.item(k)
                == page.item(k) by {
                if k != n {
                    assert(after.item(k) == before.item(k));
                }
            }
        }
    }
}

/// A delete leaves a device that holds tuples only as such a device.
pub proof fn lemma_delete_keeps_tuples(
    before: StorageView,
    after: StorageView,
    natts: u16,
    xid: u32,
    cid: u32,
    ctid: ItemPointerData,
    r: Result<bool, HeapError>,
)
    requires
        before.wf(),
        tuples_only(before),
        delete_spec(before, after, natts, xid, cid, ctid, r),
    ensures
        tuples_only(after),
{
    if after != before {
        let t = fetch(before, natts, ctid)->Tuple_0;
        lemma_rewrite_keeps_tuples(before, natts, ctid, obsoleted_by(t.header, xid, cid));
    }
}

/// An update leaves a device that holds tuples only as such a device.
pub proof fn lemma_update_keeps_tuples(
    before: StorageView,
    after: StorageView,
    natts: u16,
    xid: u32,
    cid: u32,
    old_ctid: ItemPointerData,
    new_data: Seq<u8>,
    r: Result<Option<ItemPointerData>, HeapError>,
)
    requires
        before.wf(),
        before.max_block + 1 < u32::MAX,
        tuples_only(before),
        update_spec(before, after, natts, xid, cid, old_ctid, new_data, r),
    ensures
        tuples_only(after),
{
    if after != before {
        let t = fetch(before, natts, old_ctid)->Tuple_0;
        let (grown, new) = inserted(before, natts, xid, cid, new_data);
        lemma_inserted(before, natts, xid, cid, new_data);
        lemma_insert_keeps_tuples(before, natts, xid, cid, new_data);
        if new is Some {
            assert(stored(before, old_ctid) is Some);
            assert(stored(grown, old_ctid) == stored(before, old_ctid));
            assert(fetch(grown, natts, old_ctid) == fetch(before, natts, old_ctid));
            lemma_rewrite_keeps_tuples(
                grown,
                natts,
                old_ctid,
                replaced_by(t.header, xid, cid, new->Some_0),
            );
        }
    }
}

} // verus!
