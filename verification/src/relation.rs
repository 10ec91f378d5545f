//! A relation: a block device bound to an identity and an attribute count.

use crate::codec::random_bits;
use crate::constants::BLCKSZ;
use crate::error::HeapError;
use crate::page::{Page, PageView};
use crate::storage::{ReadOutcome, Storage, StorageView};
use vstd::prelude::*;

verus! {

/// A relation and its block device.
pub struct Relation {
    pub rel_node: u32,
    pub db_node: u32,
    pub spc_node: u32,
    pub natts: u16,
    pub storage: Storage,
}

impl Relation {
    pub open spec fn wf(&self) -> bool {
        self.storage.wf()
    }

    /// What names the relation: its node, its database, its tablespace and
    /// its attribute count. No operation on its blocks changes them.
    pub open spec fn identity(&self) -> (u32, u32, u32, u16) {
        (self.rel_node, self.db_node, self.spc_node, self.natts)
    }

    /// Creates a relation of `natts` attributes on a fresh device and writes
    /// an empty first page. The relation's node id is drawn at random and
    /// returned beside the relation.
    pub fn create(natts: u16) -> (r: Result<(Self, u32), HeapError>)
        ensures
            r is Ok,
            ({
                let (rel, rel_node) = r->Ok_0;
                &&& rel.rel_node == rel_node
                &&& rel.db_node == 0
                &&& rel.spc_node == 0
                &&& rel.natts == natts
                &&& rel.storage@ == StorageView::empty().with_page(0, PageView::empty(BLCKSZ as nat))
                &&& rel.wf()
                &&& rel.storage@.page_count() == 1
            }),
    {
        let rel_node = (random_bits() % 0x1_0000_0000) as u32;
        let mut storage = match Storage::new() {
            Ok(s) => s,
            Err(e) => {
                return Err(e);
            },
        };
        let page = Page::new(BLCKSZ);
        match storage.write_page(0, &page) {
            Ok(_) => {},
            Err(e) => {
                return Err(e);
            },
        }
        Ok((Self { rel_node, db_node: 0, spc_node: 0, natts, storage }, rel_node))
    }

    /// Opens a relation over the block images that were found where it is
    /// kept, and writes an empty first page if there is no block at all. The
    /// identity and the attribute count of an opened relation are zero.
    pub fn open(blocks: Vec<(u32, Vec<u8>)>) -> (r: Result<Self, HeapError>)
        ensures
            match r {
                Ok(rel) => {
                    let found = StorageView::opened(blocks@);
                    &&& forall|i: int| 0 <= i < blocks@.len() ==>
                        (#[trigger] blocks@[i]).0 < u32::MAX
                    &&& rel.rel_node == 0
                    &&& rel.db_node == 0
                    &&& rel.spc_node == 0
                    &&& rel.natts == 0
                    &&& rel.storage@ == if found.page_count() == 0 {
                        found.with_page(0, PageView::empty(BLCKSZ as nat))
                    } else {
                        found
                    }
                    &&& rel.wf()
                    &&& rel.storage@.page_count() >= 1
                },
                Err(e) => {
                    &&& exists|i: int| 0 <= i < blocks@.len() && (#[trigger] blocks@[i]).0 == u32::MAX
                    &&& e is StorageError
                },
            },
    {
        let mut storage = match Storage::open(blocks) {
            Ok(s) => s,
            Err(e) => {
                return Err(e);
            },
        };
        if storage.page_count() == 0 {
            let page = Page::new(BLCKSZ);
            match storage.write_page(0, &page) {
                Ok(_) => {},
                Err(e) => {
                    return Err(e);
                },
            }
        }
        Ok(Self { rel_node: 0, db_node: 0, spc_node: 0, natts: 0, storage })
    }

    /// Reads a block of the relation.
    pub fn read_page(&self, block_num: u32) -> (r: Result<Page, HeapError>)
        ensures
            match r {
                Ok(p) => self.storage@.read(block_num) == ReadOutcome::Page(p@) && p.wf(),
                Err(e) => match self.storage@.read(block_num) {
                    ReadOutcome::Page(_) => false,
                    ReadOutcome::Missing => e == HeapError::PageNotFound(block_num),
                    ReadOutcome::Corrupt => e is InvalidPage,
                },
            },
    {
        self.storage.read_page(block_num)
    }

    /// Writes a page to a block of the relation.
    pub fn write_page(&mut self, block_num: u32, page: &Page) -> (r: Result<(), HeapError>)
        requires
            old(self).wf(),
            page.wf(),
            block_num < u32::MAX,
        ensures
            r is Ok,
            final(self).storage@ == old(self).storage@.with_page(block_num, page@),
            final(self).wf(),
            final(self).identity() == old(self).identity(),
    {
        self.storage.write_page(block_num, page)
    }

    /// Allocates the next block of the relation with an empty page.
    pub fn allocate_page(&mut self) -> (r: Result<u32, HeapError>)
        requires
            old(self).wf(),
            old(self).storage@.max_block + 1 < u32::MAX,
        ensures
            r == Ok::<u32, HeapError>((old(self).storage@.max_block + 1) as u32),
            final(self).storage@ == old(self).storage@.with_page(
                (old(self).storage@.max_block + 1) as u32,
                PageView::empty(BLCKSZ as nat),
            ),
            final(self).wf(),
            final(self).identity() == old(self).identity(),
    {
        self.storage.allocate_page()
    }

    pub fn page_count(&self) -> (r: u32)
        requires
            self.wf(),
        ensures
            r == self.storage@.page_count(),
    {
        self.storage.page_count()
    }

    /// Closes the relation: every block is noted as pending once more.
    pub fn close(&mut self) -> (r: Result<(), HeapError>)
        requires
            old(self).wf(),
        ensures
            r is Ok,
            final(self).storage@ == old(self).storage@.flushed(),
            final(self).wf(),
            final(self).identity() == old(self).identity(),
    {
        self.storage.close()
    }

    /// Drops every block of the relation.
    pub fn drop(&mut self) -> (r: Result<(), HeapError>)
        ensures
            r is Ok,
            final(self).storage@ == StorageView::empty(),
            final(self).wf(),
            final(self).identity() == old(self).identity(),
    {
        self.storage.drop_all()
    }
}

} // verus!
