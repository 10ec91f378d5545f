//! The heap operations: insert, update, delete, get, scan and vacuum over
//! the pages of a relation, and the engine that runs them for the current
//! transaction.

use crate::codec::{copy_range, fill};
use crate::constants::{BLCKSZ, HEAP_FIXED_HEADER_SIZE, LP_USED};
use crate::error::HeapError;
use crate::heap_model::{
    delete_spec, fresh_tuple, get_spec, insert_spec, lemma_inserted, lemma_read_page,
    lemma_unreadable_below, page_rows, placement, pointer, reclaimable_slot, rows_of, scan_rows,
    scan_spec, space_needed, stored, swept, swept_count, unreadable_below, update_spec,
    vacuum_spec, vacuumed, vacuumed_count, Placement, Row,
};
use crate::heap_tuple::{HeapTuple, HeapTupleView};
use crate::page::{lemma_pack_item_id, Page, PageView};
use crate::relation::Relation;
use crate::storage::StorageView;
use crate::transaction::{Transaction, TransactionManager, TransactionTable};
use crate::types::{CommandId, ItemPointerData, Snapshot, TransactionId};
use crate::visibility::Visibility;
use vstd::prelude::*;

verus! {

/// Whether a page has the free space for a tuple with `len` payload bytes.
fn has_space(free: usize, len: usize) -> (r: bool)
    ensures
        r == (free >= space_needed(len as nat)),
{
    free >= 28 && len <= free - 28
}

/// A heap relation: the pages of a relation read as tuples of `natts`
/// attributes, and the transaction manager of the engine.
pub struct HeapRelation {
    pub relation: Relation,
    pub natts: u16,
    pub tx_manager: TransactionManager,
}

impl HeapRelation {
    pub open spec fn wf(&self) -> bool {
        self.relation.wf() && self.tx_manager.wf()
    }

    /// The state of the relation's block device.
    pub open spec fn store(&self) -> StorageView {
        self.relation.storage@
    }

    /// Creates a heap of `natts` attributes on a fresh device, with an empty
    /// first page and a fresh transaction table.
    pub fn create(natts: u16) -> (r: Result<(Self, u32), HeapError>)
        ensures
            r is Ok,
            ({
                let (heap, rel_node) = r->Ok_0;
                &&& heap.wf()
                &&& heap.natts == natts
                &&& heap.relation.rel_node == rel_node
                &&& heap.store() == StorageView::empty().with_page(
                    0,
                    PageView::empty(BLCKSZ as nat),
                )
                &&& heap.tx_manager@ == TransactionTable::initial()
            }),
    {
        let tx_manager = TransactionManager::new();
        let (relation, rel_node) = match Relation::create(natts) {
            Ok(pair) => pair,
            Err(e) => {
                return Err(e);
            },
        };
        Ok((Self { relation, natts, tx_manager }, rel_node))
    }

    /// Opens a heap of `natts` attributes over the block images that were
    /// found where it is kept, with a fresh transaction table.
    pub fn open(blocks: Vec<(u32, Vec<u8>)>, natts: u16) -> (r: Result<Self, HeapError>)
        ensures
            match r {
                Ok(heap) => {
                    let found = StorageView::opened(blocks@);
                    &&& forall|i: int| 0 <= i < blocks@.len() ==>
                        (#[trigger] blocks@[i]).0 < u32::MAX
                    &&& heap.wf()
                    &&& heap.natts == natts
                    &&& heap.store() == if found.page_count() == 0 {
                        found.with_page(0, PageView::empty(BLCKSZ as nat))
                    } else {
                        found
                    }
                    &&& heap.tx_manager@ == TransactionTable::initial()
                },
                Err(e) => {
                    &&& exists|i: int| 0 <= i < blocks@.len() && (#[trigger] blocks@[i]).0 == u32::MAX
                    &&& e is StorageError
                },
            },
    {
        let tx_manager = TransactionManager::new();
        let relation = match Relation::open(blocks) {
            Ok(rel) => rel,
            Err(e) => {
                return Err(e);
            },
        };
        Ok(Self { relation, natts, tx_manager })
    }

    /// Inserts a tuple with the payload `data`, created by `xid` under
    /// command `cid`, and returns its pointer.
    ///
    /// The tuple goes into the first block, in ascending order, whose page
    /// has room for it; where no block has, a block is allocated for it. The
    /// tuple is stored with its own pointer in its header. A block that
    /// cannot be read on the way fails the insert and leaves the device as
    /// it was; a tuple too large for an empty page fails it with
    /// `NoFreeSpace` and leaves the allocated block behind.
    pub fn insert(&mut self, xid: TransactionId, cid: CommandId, data: &[u8]) -> (r: Result<
        ItemPointerData,
        HeapError,
    >)
        requires
            old(self).wf(),
            old(self).store().max_block + 1 < u32::MAX,
        ensures
            final(self).wf(),
            final(self).natts == old(self).natts,
            final(self).tx_manager == old(self).tx_manager,
            final(self).relation.identity() == old(self).relation.identity(),
            insert_spec(
                old(self).store(),
                final(self).store(),
                old(self).natts,
                xid.0,
                cid.0,
                data@,
                r,
            ),
    {
        let ghost start = self.store();
        let ghost need = space_needed(data@.len());
        let page_count = self.relation.page_count();
        let mut block_num: u32 = 0;
        let mut found_page = false;
        let mut bn: u32 = 0;
        while bn < page_count && !found_page
            invariant
                *self == *old(self),
                self.wf(),
                start == self.store(),
                need == space_needed(data@.len()),
                page_count == start.page_count(),
                bn <= page_count,
                !found_page ==> placement(start, need, 0) == placement(start, need, bn as int),
                found_page ==> placement(start, need, 0) == Placement::Block(block_num),
                found_page ==>
                    start.read(block_num) is Page && start.read(block_num)->Page_0.free_space()
                    >= need,
            decreases page_count - bn + (if found_page { 0int } else { 1int }),
        {
            let page = match self.relation.read_page(bn) {
                Ok(p) => p,
                Err(e) => {
                    return Err(e);
                },
            };
            if has_space(page.free_space(), data.len()) {
                block_num = bn;
                found_page = true;
            } else {
                bn = bn + 1;
            }
        }
        if !found_page {
            proof {
                start.lemma_with_page((start.max_block + 1) as u32, PageView::empty(BLCKSZ as nat));
            }
            block_num = match self.relation.allocate_page() {
                Ok(n) => n,
                Err(e) => {
                    return Err(e);
                },
            };
        }
        let ghost middle = self.store();
        let mut page = match self.relation.read_page(block_num) {
            Ok(p) => p,
            Err(e) => {
                return Err(e);
            },
        };
        let ghost origin = page@;
        if !has_space(page.free_space(), data.len()) {
            return Err(HeapError::NoFreeSpace);
        }
        let mut heap_tuple = HeapTuple::with_data(self.natts, copy_range(data, 0, data.len()), false);
        assert(data@.subrange(0, data@.len() as int) =~= data@);
        heap_tuple.header.t_xmin = xid.0;
        heap_tuple.header.t_xmax = 0;
        heap_tuple.header.t_cid = cid.0;
        heap_tuple.header.t_ctid = ItemPointerData { block_number: block_num, offset_number: 0 };
        let serialized = heap_tuple.serialize();
        let offset = match page.add_item(serialized.as_slice()) {
            Ok(n) => n,
            Err(e) => {
                return Err(e);
            },
        };
        let ctid = ItemPointerData { block_number: block_num, offset_number: offset };
        heap_tuple.header.t_ctid = ctid;
        let serialized = heap_tuple.serialize();
        let ghost grown_page = page@;
        match page.get_item_mut(offset) {
            Some(tuple_data) => {
                fill(tuple_data, serialized.as_slice());
            },
            None => {},
        }
        proof {
            let image = fresh_tuple(self.natts, xid.0, cid.0, ctid, data@).image();
            assert(heap_tuple@ == fresh_tuple(self.natts, xid.0, cid.0, ctid, data@));
            let unplaced = ItemPointerData { block_number: block_num, offset_number: 0 };
            let image0 = fresh_tuple(self.natts, xid.0, cid.0, unplaced, data@).image();
            assert(grown_page == origin.with_item(image0));
            let upper = (origin.header.pd_upper - image0.len()) as u16;
            lemma_pack_item_id(upper, image0.len() as u16, LP_USED);
            let it = grown_page.items[offset - 1];
            assert(it.spec_offset() == upper);
            assert(it.spec_length() == image0.len());
            assert(image.len() == image0.len());
            assert(page@.body =~= origin.with_item(image).body);
            assert(page@ == origin.with_item(image));
            origin.lemma_with_item(image);
        }
        match self.relation.write_page(block_num, &page) {
            Ok(_) => {},
            Err(e) => {
                return Err(e);
            },
        }
        Ok(ctid)
    }

    /// The tuple at `ctid`, raw: no visibility rule is applied. A slot that
    /// does not exist or is not in use gives `None`; a block that cannot be
    /// read, or an item too short to be a tuple, fails the call.
    pub fn get(&self, ctid: ItemPointerData) -> (r: Result<Option<HeapTuple>, HeapError>)
        requires
            self.wf(),
        ensures
            get_spec(self.store(), self.natts, ctid, r),
    {
        let page = match self.relation.read_page(ctid.block_number) {
            Ok(p) => p,
            Err(e) => {
                return Err(e);
            },
        };
        match page.get_item(ctid.offset_number) {
            Some(data) => {
                match HeapTuple::deserialize(data, self.natts) {
                    Ok(heap_tuple) => Ok(Some(heap_tuple)),
                    Err(e) => Err(e),
                }
            },
            None => Ok(None),
        }
    }

    /// Marks the tuple at `ctid` as obsoleted by `xid` under command `cid`,
    /// in place, and returns `true`. A tuple that already has a deleter is
    /// left as it is and the call returns `false`: a write-write conflict is
    /// no error. The call fails, and changes nothing, where the block cannot
    /// be read, where there is no tuple at `ctid`, and where the tuple
    /// cannot be rewritten in place.
    pub fn delete(&mut self, xid: TransactionId, cid: CommandId, ctid: ItemPointerData) -> (r:
        Result<bool, HeapError>)
        requires
            old(self).wf(),
        ensures
            final(self).wf(),
            final(self).natts == old(self).natts,
            final(self).tx_manager == old(self).tx_manager,
            final(self).relation.identity() == old(self).relation.identity(),
            delete_spec(
                old(self).store(),
                final(self).store(),
                old(self).natts,
                xid.0,
                cid.0,
                ctid,
                r,
            ),
    {
        let mut page = match self.relation.read_page(ctid.block_number) {
            Ok(p) => p,
            Err(e) => {
                return Err(e);
            },
        };
        let mut heap_tuple = match page.get_item(ctid.offset_number) {
            Some(tuple_data) => match HeapTuple::deserialize(tuple_data, self.natts) {
                Ok(t) => t,
                Err(e) => {
                    return Err(e);
                },
            },
            None => {
                return Err(HeapError::InvalidTuple("failed to get item for delete".to_string()));
            },
        };
        if !heap_tuple.xmax().is_invalid() {
            return Ok(false);
        }
        heap_tuple.header.t_xmax = xid.0;
        heap_tuple.header.t_cid = cid.0;
        match Self::rewrite(&mut page, ctid.offset_number, &heap_tuple, self.natts) {
            Ok(_) => {},
            Err(e) => {
                return Err(e);
            },
        }
        proof {
            lemma_read_page(self.store(), ctid.block_number);
        }
        match self.relation.write_page(ctid.block_number, &page) {
            Ok(_) => {},
            Err(e) => {
                return Err(e);
            },
        }
        Ok(true)
    }

    /// Writes `tuple`, which was read from the item `offset` of `page` and
    /// then changed in its header only, back over the item. Fails with
    /// `InvalidTuple`, leaving the page as it was, where the tuple's image is
    /// not as long as the item.
    fn rewrite(page: &mut Page, offset: u16, tuple: &HeapTuple, natts: u16) -> (r: Result<
        (),
        HeapError,
    >)
        requires
            old(page).wf(),
            old(page)@.item(offset) is Some,
            old(page)@.item(offset)->Some_0.len() >= HEAP_FIXED_HEADER_SIZE,
            tuple@ == (HeapTupleView {
                header: tuple@.header,
                ..HeapTupleView::parse(old(page)@.item(offset)->Some_0, natts)
            }),
            tuple@.header.t_infomask == HeapTupleView::parse(
                old(page)@.item(offset)->Some_0,
                natts,
            ).header.t_infomask,
        ensures
            final(page).wf(),
            match r {
                Ok(_) => {
                    &&& tuple@.size() == old(page)@.item(offset)->Some_0.len()
                    &&& final(page)@ == old(page)@.with_body(offset, tuple@.image())
                },
                Err(e) => {
                    &&& tuple@.size() != old(page)@.item(offset)->Some_0.len()
                    &&& e is InvalidTuple
                    &&& *final(page) == *old(page)
                },
            },
    {
        let ghost bytes = page@.item(offset)->Some_0;
        let ghost origin = page@;
        proof {
            assert(origin.item_in_bounds(origin.items[offset - 1]));
            crate::page::lemma_item_id_ranges(origin.items[offset - 1].bits);
            assert(bytes.len() <= 0x7FFF);
        }
        let item_len = match page.get_item(offset) {
            Some(stored) => stored.len(),
            None => 0,
        };
        let size = tuple.size();
        if size != item_len {
            return Err(
                HeapError::InvalidTuple("tuple does not fit its item".to_string()),
            );
        }
        let serialized = tuple.serialize();
        match page.get_item_mut(offset) {
            Some(span) => {
                fill(span, serialized.as_slice());
            },
            None => {},
        }
        proof {
            origin.lemma_with_body(offset, tuple@.image());
            assert(page@.body =~= origin.with_body(offset, tuple@.image()).body);
        }
        Ok(())
    }

    /// Replaces the tuple at `old_ctid` by a new version with the payload
    /// `new_data`, written by `xid` under command `cid`, and returns the
    /// pointer to the new version.
    ///
    /// The new version is inserted like any tuple; the old one is then
    /// marked in place as obsoleted by `xid`, with its pointer set to the new
    /// version. A tuple that already has a deleter is left as it is and the
    /// call returns `None`: a write-write conflict is no error. The call
    /// fails, and changes nothing, where the block cannot be read, where
    /// there is no tuple at `old_ctid`, and where the tuple cannot be
    /// rewritten in place; where the insert fails, it fails with what the
    /// insert left behind.
    pub fn update(
        &mut self,
        xid: TransactionId,
        cid: CommandId,
        old_ctid: ItemPointerData,
        new_data: &[u8],
    ) -> (r: Result<Option<ItemPointerData>, HeapError>)
        requires
            old(self).wf(),
            old(self).store().max_block + 1 < u32::MAX,
        ensures
            final(self).wf(),
            final(self).natts == old(self).natts,
            final(self).tx_manager == old(self).tx_manager,
            final(self).relation.identity() == old(self).relation.identity(),
            update_spec(
                old(self).store(),
                final(self).store(),
                old(self).natts,
                xid.0,
                cid.0,
                old_ctid,
                new_data@,
                r,
            ),
    {
        let ghost start = self.store();
        let old_page = match self.relation.read_page(old_ctid.block_number) {
            Ok(p) => p,
            Err(e) => {
                return Err(e);
            },
        };
        let mut old_tuple = match old_page.get_item(old_ctid.offset_number) {
            Some(old_tuple_data) => {
                let parsed = match HeapTuple::deserialize(old_tuple_data, self.natts) {
                    Ok(t) => t,
                    Err(e) => {
                        return Err(e);
                    },
                };
                proof {
                    let origin = old_page@;
                    assert(origin.item_in_bounds(origin.items[old_ctid.offset_number - 1]));
                    crate::page::lemma_item_id_ranges(origin.items[old_ctid.offset_number - 1].bits);
                }
                if parsed.size() != old_tuple_data.len() {
                    if !parsed.xmax().is_invalid() {
                        return Ok(None);
                    }
                    return Err(HeapError::InvalidTuple("tuple does not fit its item".to_string()));
                }
                parsed
            },
            None => {
                return Err(HeapError::InvalidTuple("failed to get old item".to_string()));
            },
        };
        if !old_tuple.xmax().is_invalid() {
            return Ok(None);
        }
        proof {
            lemma_inserted(start, self.natts, xid.0, cid.0, new_data@);
        }
        let new_ctid = match self.insert(xid, cid, new_data) {
            Ok(ctid) => ctid,
            Err(e) => {
                return Err(e);
            },
        };
        old_tuple.header.t_xmax = xid.0;
        old_tuple.header.t_cid = cid.0;
        old_tuple.header.t_ctid = new_ctid;
        let ghost middle = self.store();
        proof {
            assert(stored(start, old_ctid) is Some);
            assert(stored(middle, old_ctid) == stored(start, old_ctid));
        }
        let mut page = match self.relation.read_page(old_ctid.block_number) {
            Ok(p) => p,
            Err(e) => {
                return Err(e);
            },
        };
        match Self::rewrite(&mut page, old_ctid.offset_number, &old_tuple, self.natts) {
            Ok(_) => {},
            Err(e) => {
                return Err(e);
            },
        }
        proof {
            lemma_read_page(middle, old_ctid.block_number);
        }
        match self.relation.write_page(old_ctid.block_number, &page) {
            Ok(_) => {},
            Err(e) => {
                return Err(e);
            },
        }
        Ok(Some(new_ctid))
    }

    /// The tuples that `snapshot` makes visible to the reader `cur_xid`,
    /// each with its pointer, in block order and within a block in slot
    /// order. Slots that are not in use, and items too short to be a tuple,
    /// are passed over; the first block that cannot be read fails the scan.
    pub fn scan(&self, snapshot: &Snapshot, cur_xid: TransactionId) -> (r: Result<
        Vec<(ItemPointerData, HeapTuple)>,
        HeapError,
    >)
        requires
            self.wf(),
        ensures
            scan_spec(self.store(), self.natts, snapshot, cur_xid.0, r),
    {
        let mut results: Vec<(ItemPointerData, HeapTuple)> = Vec::new();
        let page_count = self.relation.page_count();
        let ghost s = self.store();
        let mut block_num: u32 = 0;
        assert(rows_of(results@) =~= Seq::<Row>::empty());
        while block_num < page_count
            invariant
                self.wf(),
                s == self.store(),
                page_count == s.page_count(),
                block_num <= page_count,
                unreadable_below(s, block_num as nat) is None,
                rows_of(results@) == scan_rows(s, self.natts, snapshot, cur_xid.0, block_num as nat),
            decreases page_count - block_num,
        {
            let page = match self.relation.read_page(block_num) {
                Ok(p) => p,
                Err(e) => {
                    proof {
                        lemma_unreadable_below(s, (block_num + 1) as nat, page_count as nat);
                    }
                    return Err(e);
                },
            };
            let ghost before = rows_of(results@);
            let count = page.item_count();
            proof {
                assert(count <= 8186) by {
                    assert(page@.wf());
                }
            }
            let mut offset_idx: usize = 0;
            assert(rows_of(results@) =~= before + page_rows(
                page@,
                block_num,
                self.natts,
                snapshot,
                cur_xid.0,
                0,
            ));
            while offset_idx < count
                invariant
                    page.wf(),
                    count == page@.items.len(),
                    count <= 8186,
                    offset_idx <= count,
                    rows_of(results@) == before + page_rows(
                        page@,
                        block_num,
                        self.natts,
                        snapshot,
                        cur_xid.0,
                        offset_idx as nat,
                    ),
                decreases count - offset_idx,
            {
                let offset = (offset_idx + 1) as u16;
                let ghost so_far = rows_of(results@);
                match page.get_item(offset) {
                    Some(tuple_data) => {
                        match HeapTuple::deserialize(tuple_data, self.natts) {
                            Ok(heap_tuple) => {
                                if Visibility::satisfies(&heap_tuple, snapshot, cur_xid) {
                                    let ghost row = (pointer(block_num, offset), heap_tuple@);
                                    results.push(
                                        (
                                            ItemPointerData {
                                                block_number: block_num,
                                                offset_number: offset,
                                            },
                                            heap_tuple,
                                        ),
                                    );
                                    assert(rows_of(results@) =~= so_far.push(row));
                                }
                            },
                            Err(_) => {},
                        }
                    },
                    None => {},
                }
                proof {
                    let prev = page_rows(
                        page@,
                        block_num,
                        self.natts,
                        snapshot,
                        cur_xid.0,
                        offset_idx as nat,
                    );
                    let next = page_rows(
                        page@,
                        block_num,
                        self.natts,
                        snapshot,
                        cur_xid.0,
                        (offset_idx + 1) as nat,
                    );
                    assert(before + next =~= rows_of(results@));
                }
                offset_idx += 1;
            }
            block_num += 1;
        }
        Ok(results)
    }

    /// Reclaims the tuples that no reader can see any more and returns their
    /// number, at most `u32::MAX`.
    ///
    /// A tuple is reclaimed where its deleter committed and precedes the
    /// lower bound of every snapshot that a transaction in progress can
    /// hold. Its slot is marked dead; a page that
    /// lost a tuple gets back the space below its lowest live body and is
    /// written back. The first block that cannot be read fails the call,
    /// with the blocks before it vacuumed.
    pub fn vacuum(&mut self) -> (r: Result<u32, HeapError>)
        requires
            old(self).wf(),
        ensures
            final(self).wf(),
            final(self).natts == old(self).natts,
            final(self).tx_manager == old(self).tx_manager,
            final(self).relation.identity() == old(self).relation.identity(),
            vacuum_spec(
                old(self).store(),
                final(self).store(),
                old(self).natts,
                old(self).tx_manager@,
                r,
            ),
    {
        let ghost start = self.store();
        let ghost table = self.tx_manager@;
        let mut removed_count: u64 = 0;
        let page_count = self.relation.page_count();
        let mut block_num: u32 = 0;
        while block_num < page_count
            invariant
                self.wf(),
                start.wf(),
                start == old(self).store(),
                self.natts == old(self).natts,
                self.tx_manager == old(self).tx_manager,
                self.relation.identity() == old(self).relation.identity(),
                table == self.tx_manager@,
                page_count == start.page_count(),
                self.store().page_count() == page_count,
                block_num <= page_count,
                unreadable_below(start, block_num as nat) is None,
                self.store() == vacuumed(start, self.natts, table, block_num as nat),
                forall|k: u32| k >= block_num ==> #[trigger] self.store().read(k) == start.read(k),
                removed_count == vacuumed_count(start, self.natts, table, block_num as nat),
                removed_count <= block_num * 8186,
            decreases page_count - block_num,
        {
            assert(self.store().read(block_num) == start.read(block_num));
            let mut page = match self.relation.read_page(block_num) {
                Ok(p) => p,
                Err(e) => {
                    proof {
                        assert(unreadable_below(start, (block_num + 1) as nat) == Some(block_num));
                        lemma_unreadable_below(start, (block_num + 1) as nat, page_count as nat);
                    }
                    return Err(e);
                },
            };
            let ghost origin = page@;
            let count = page.item_count();
            let mut removed_here: u64 = 0;
            let mut offset_idx: usize = 0;
            while offset_idx < count
                invariant
                    page.wf(),
                    origin.wf(),
                    count == origin.items.len(),
                    page@.items.len() == count,
                    count <= 8186,
                    offset_idx <= count,
                    table == self.tx_manager@,
                    page@ == swept(origin, self.natts, table, offset_idx as nat),
                    removed_here == swept_count(origin, self.natts, table, offset_idx as nat),
                    removed_here <= offset_idx,
                    page@.page_size == origin.page_size,
                    forall|k: u16| k > offset_idx ==> #[trigger] page@.item(k) == origin.item(k),
                decreases count - offset_idx,
            {
                let offset = (offset_idx + 1) as u16;
                let mut reclaim = false;
                match page.get_item(offset) {
                    Some(tuple_data) => {
                        match HeapTuple::deserialize(tuple_data, self.natts) {
                            Ok(heap_tuple) => {
                                reclaim = self.tx_manager.is_reclaimable(heap_tuple.xmax());
                            },
                            Err(_) => {},
                        }
                    },
                    None => {},
                }
                assert(reclaim == reclaimable_slot(origin, self.natts, table, offset));
                if reclaim {
                    match page.remove_item(offset) {
                        Ok(_) => {},
                        Err(e) => {
                            return Err(e);
                        },
                    }
                    removed_here += 1;
                }
                offset_idx += 1;
            }
            if removed_here > 0 {
                page.reclaim_space();
                proof {
                    lemma_read_page(start, block_num);
                    self.store().lemma_with_page(block_num, page@);
                }
                match self.relation.write_page(block_num, &page) {
                    Ok(_) => {},
                    Err(e) => {
                        return Err(e);
                    },
                }
            }
            removed_count += removed_here;
            block_num += 1;
        }
        if removed_count > u32::MAX as u64 {
            Ok(u32::MAX)
        } else {
            Ok(removed_count as u32)
        }
    }

    /// Closes the heap: every block that holds an image is noted as pending
    /// once more, in ascending order, so that all of them are persisted
    /// again. The images, the high-water mark and the transaction table
    /// stay as they were.
    pub fn close(&mut self) -> (r: Result<(), HeapError>)
        requires
            old(self).wf(),
        ensures
            r is Ok,
            final(self).natts == old(self).natts,
            final(self).tx_manager == old(self).tx_manager,
            final(self).relation.identity() == old(self).relation.identity(),
            final(self).store() == old(self).store().flushed(),
            final(self).wf(),
    {
        self.relation.close()
    }

    /// Drops every block of the heap.
    pub fn drop(&mut self) -> (r: Result<(), HeapError>)
        requires
            old(self).wf(),
        ensures
            r is Ok,
            final(self).natts == old(self).natts,
            final(self).tx_manager == old(self).tx_manager,
            final(self).relation.identity() == old(self).relation.identity(),
            final(self).store() == StorageView::empty(),
            final(self).wf(),
    {
        self.relation.drop()
    }
}

/// The engine: a heap and the transaction that its operations run under.
pub struct HeapEngine {
    pub heap: HeapRelation,
    pub current_tx: Option<Transaction>,
}

impl HeapEngine {
    pub open spec fn wf(&self) -> bool {
        self.heap.wf()
    }

    /// Creates an engine over a fresh heap of `natts` attributes, with no
    /// transaction running.
    pub fn create(natts: u16) -> (r: Result<(Self, u32), HeapError>)
        ensures
            r is Ok,
            ({
                let (engine, rel_node) = r->Ok_0;
                &&& engine.wf()
                &&& engine.current_tx is None
                &&& engine.heap.natts == natts
                &&& engine.heap.relation.rel_node == rel_node
                &&& engine.heap.store() == StorageView::empty().with_page(
                    0,
                    PageView::empty(BLCKSZ as nat),
                )
                &&& engine.heap.tx_manager@ == TransactionTable::initial()
            }),
    {
        let (heap, rel_node) = match HeapRelation::create(natts) {
            Ok(pair) => pair,
            Err(e) => {
                return Err(e);
            },
        };
        Ok((Self { heap, current_tx: None }, rel_node))
    }

    /// Opens an engine over the block images of a heap of `natts`
    /// attributes, with no transaction running.
    pub fn open(blocks: Vec<(u32, Vec<u8>)>, natts: u16) -> (r: Result<Self, HeapError>)
        ensures
            match r {
                Ok(engine) => {
                    &&& forall|i: int| 0 <= i < blocks@.len() ==>
                        (#[trigger] blocks@[i]).0 < u32::MAX
                    &&& engine.wf()
                    &&& engine.current_tx is None
                    &&& engine.heap.natts == natts
                    &&& engine.heap.store() == ({
                        let found = StorageView::opened(blocks@);
                        if found.page_count() == 0 {
                            found.with_page(0, PageView::empty(BLCKSZ as nat))
                        } else {
                            found
                        }
                    })
                    &&& engine.heap.tx_manager@ == TransactionTable::initial()
                },
                Err(e) => {
                    &&& exists|i: int| 0 <= i < blocks@.len() && (#[trigger] blocks@[i]).0 == u32::MAX
                    &&& e is StorageError
                },
            },
    {
        let heap = match HeapRelation::open(blocks, natts) {
            Ok(h) => h,
            Err(e) => {
                return Err(e);
            },
        };
        Ok(Self { heap, current_tx: None })
    }

    /// Begins a transaction and makes it the current one.
    pub fn begin(&mut self) -> (r: Transaction)
        requires
            old(self).wf(),
            old(self).heap.tx_manager@.next_xid < u32::MAX,
            old(self).heap.tx_manager@.next_cid < u32::MAX,
        ensures
            final(self).wf(),
            r.xid.0 == old(self).heap.tx_manager@.next_xid,
            r.cid.0 == old(self).heap.tx_manager@.next_cid,
            final(self).current_tx == Some(r),
            final(self).heap.tx_manager@ == (TransactionTable {
                next_cid: (old(self).heap.tx_manager@.next_cid + 1) as u32,
                ..old(self).heap.tx_manager@.began()
            }),
            final(self).heap.store() == old(self).heap.store(),
            final(self).heap.natts == old(self).heap.natts,
            final(self).heap.relation.identity() == old(self).heap.relation.identity(),
    {
        let tx = Transaction::new(&mut self.heap.tx_manager);
        self.current_tx = Some(tx);
        tx
    }

    /// Commits the current transaction, if there is one. No transaction is
    /// current afterwards.
    pub fn commit(&mut self)
        requires
            old(self).wf(),
        ensures
            final(self).wf(),
            final(self).current_tx is None,
            final(self).heap.tx_manager@ == match old(self).current_tx {
                Some(tx) => old(self).heap.tx_manager@.ended(tx.xid.0, true),
                None => old(self).heap.tx_manager@,
            },
            final(self).heap.store() == old(self).heap.store(),
            final(self).heap.natts == old(self).heap.natts,
            final(self).heap.relation.identity() == old(self).heap.relation.identity(),
    {
        match self.current_tx.take() {
            Some(tx) => {
                tx.commit(&mut self.heap.tx_manager);
            },
            None => {},
        }
    }

    /// Aborts the current transaction, if there is one. No transaction is
    /// current afterwards.
    pub fn abort(&mut self)
        requires
            old(self).wf(),
        ensures
            final(self).wf(),
            final(self).current_tx is None,
            final(self).heap.tx_manager@ == match old(self).current_tx {
                Some(tx) => old(self).heap.tx_manager@.ended(tx.xid.0, false),
                None => old(self).heap.tx_manager@,
            },
            final(self).heap.store() == old(self).heap.store(),
            final(self).heap.natts == old(self).heap.natts,
            final(self).heap.relation.identity() == old(self).heap.relation.identity(),
    {
        match self.current_tx.take() {
            Some(tx) => {
                tx.abort(&mut self.heap.tx_manager);
            },
            None => {},
        }
    }

    /// Inserts a tuple for the current transaction. Without a current
    /// transaction the call fails with `InvalidTransaction` and changes
    /// nothing.
    pub fn insert(&mut self, data: &[u8]) -> (r: Result<ItemPointerData, HeapError>)
        requires
            old(self).wf(),
            old(self).heap.store().max_block + 1 < u32::MAX,
        ensures
            final(self).wf(),
            final(self).current_tx == old(self).current_tx,
            final(self).heap.natts == old(self).heap.natts,
            final(self).heap.tx_manager == old(self).heap.tx_manager,
            final(self).heap.relation.identity() == old(self).heap.relation.identity(),
            match old(self).current_tx {
                Some(tx) => insert_spec(
                    old(self).heap.store(),
                    final(self).heap.store(),
                    old(self).heap.natts,
                    tx.xid.0,
                    tx.cid.0,
                    data@,
                    r,
                ),
                None => {
                    &&& r is Err
                    &&& r->Err_0 is InvalidTransaction
                    &&& final(self).heap.store() == old(self).heap.store()
                },
            },
    {
        match self.current_tx {
            Some(tx) => self.heap.insert(tx.xid(), tx.get_cid(), data),
            None => Err(HeapError::InvalidTransaction("no active transaction".to_string())),
        }
    }

    /// Updates a tuple for the current transaction. Without a current
    /// transaction the call fails with `InvalidTransaction` and changes
    /// nothing.
    pub fn update(&mut self, ctid: ItemPointerData, new_data: &[u8]) -> (r: Result<
        Option<ItemPointerData>,
        HeapError,
    >)
        requires
            old(self).wf(),
            old(self).heap.store().max_block + 1 < u32::MAX,
        ensures
            final(self).wf(),
            final(self).current_tx == old(self).current_tx,
            final(self).heap.natts == old(self).heap.natts,
            final(self).heap.tx_manager == old(self).heap.tx_manager,
            final(self).heap.relation.identity() == old(self).heap.relation.identity(),
            match old(self).current_tx {
                Some(tx) => update_spec(
                    old(self).heap.store(),
                    final(self).heap.store(),
                    old(self).heap.natts,
                    tx.xid.0,
                    tx.cid.0,
                    ctid,
                    new_data@,
                    r,
                ),
                None => {
                    &&& r is Err
                    &&& r->Err_0 is InvalidTransaction
                    &&& final(self).heap.store() == old(self).heap.store()
                },
            },
    {
        match self.current_tx {
            Some(tx) => self.heap.update(tx.xid(), tx.get_cid(), ctid, new_data),
            None => Err(HeapError::InvalidTransaction("no active transaction".to_string())),
        }
    }

    /// Deletes a tuple for the current transaction. Without a current
    /// transaction the call fails with `InvalidTransaction` and changes
    /// nothing.
    pub fn delete(&mut self, ctid: ItemPointerData) -> (r: Result<bool, HeapError>)
        requires
            old(self).wf(),
        ensures
            final(self).wf(),
            final(self).current_tx == old(self).current_tx,
            final(self).heap.natts == old(self).heap.natts,
            final(self).heap.tx_manager == old(self).heap.tx_manager,
            final(self).heap.relation.identity() == old(self).heap.relation.identity(),
            match old(self).current_tx {
                Some(tx) => delete_spec(
                    old(self).heap.store(),
                    final(self).heap.store(),
                    old(self).heap.natts,
                    tx.xid.0,
                    tx.cid.0,
                    ctid,
                    r,
                ),
                None => {
                    &&& r is Err
                    &&& r->Err_0 is InvalidTransaction
                    &&& final(self).heap.store() == old(self).heap.store()
                },
            },
    {
        match self.current_tx {
            Some(tx) => self.heap.delete(tx.xid(), tx.get_cid(), ctid),
            None => Err(HeapError::InvalidTransaction("no active transaction".to_string())),
        }
    }

    /// The tuple at `ctid`, raw.
    pub fn get(&self, ctid: ItemPointerData) -> (r: Result<Option<HeapTuple>, HeapError>)
        requires
            self.wf(),
        ensures
            get_spec(self.heap.store(), self.heap.natts, ctid, r),
    {
        self.heap.get(ctid)
    }

    /// The id that a scan reads as: that of the current transaction, or the
    /// first normal id where none is current.
    pub open spec fn reader(&self) -> (u32, u32) {
        match self.current_tx {
            Some(tx) => (tx.xid.0, tx.cid.0),
            None => (2, 0),
        }
    }

    /// Scans the heap under a snapshot that is captured now, for the
    /// current transaction and its command. Without a current transaction
    /// the scan reads as the first normal transaction id, at command zero.
    pub fn scan(&self) -> (r: Result<Vec<(ItemPointerData, HeapTuple)>, HeapError>)
        requires
            self.wf(),
        ensures
            exists|snapshot: Snapshot|
                {
                    &&& #[trigger] self.heap.tx_manager@.captured(self.reader().1, &snapshot)
                    &&& scan_spec(
                        self.heap.store(),
                        self.heap.natts,
                        &snapshot,
                        self.reader().0,
                        r,
                    )
                },
    {
        let current_cid = match self.current_tx {
            Some(tx) => tx.get_cid(),
            None => CommandId::invalid(),
        };
        let snapshot = self.heap.tx_manager.get_snapshot(current_cid);
        let cur_xid = match self.current_tx {
            Some(tx) => tx.xid(),
            None => TransactionId::first_normal(),
        };
        let r = self.heap.scan(&snapshot, cur_xid);
        assert(self.heap.tx_manager@.captured(self.reader().1, &snapshot));
        r
    }

    /// Vacuums the heap.
    pub fn vacuum(&mut self) -> (r: Result<u32, HeapError>)
        requires
            old(self).wf(),
        ensures
            final(self).wf(),
            final(self).current_tx == old(self).current_tx,
            final(self).heap.natts == old(self).heap.natts,
            final(self).heap.tx_manager == old(self).heap.tx_manager,
            final(self).heap.relation.identity() == old(self).heap.relation.identity(),
            vacuum_spec(
                old(self).heap.store(),
                final(self).heap.store(),
                old(self).heap.natts,
                old(self).heap.tx_manager@,
                r,
            ),
    {
        self.heap.vacuum()
    }

    /// Closes the heap: every block that holds an image is noted as pending
    /// once more, in ascending order. The current transaction, the
    /// transaction table, the images and the high-water mark stay as they
    /// were.
    pub fn close(&mut self) -> (r: Result<(), HeapError>)
        requires
            old(self).wf(),
        ensures
            r is Ok,
            final(self).wf(),
            final(self).current_tx == old(self).current_tx,
            final(self).heap.natts == old(self).heap.natts,
            final(self).heap.tx_manager == old(self).heap.tx_manager,
            final(self).heap.relation.identity() == old(self).heap.relation.identity(),
            final(self).heap.store() == old(self).heap.store().flushed(),
    {
        self.heap.close()
    }

    /// Drops every block of the heap.
    pub fn drop(&mut self) -> (r: Result<(), HeapError>)
        requires
            old(self).wf(),
        ensures
            r is Ok,
            final(self).wf(),
            final(self).current_tx == old(self).current_tx,
            final(self).heap.store() == StorageView::empty(),
            final(self).heap.relation.identity() == old(self).heap.relation.identity(),
    {
        self.heap.drop()
    }
}

} // verus!
