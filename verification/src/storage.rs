//! The block device in memory: the page images of a relation keyed by block
//! number, the highest block written so far, and the list of blocks that
//! were written since the images were last persisted.

use crate::constants::BLCKSZ;
use crate::error::HeapError;
use crate::page::{Page, PageView};
use std::collections::HashMap;
use vstd::prelude::*;

verus! {

/// What reading a block gives.
pub enum ReadOutcome {
    /// The block holds this page.
    Page(PageView),
    /// The device has no such block.
    Missing,
    /// The block's image is not a page.
    Corrupt,
}

/// The images that `blocks[..n)` leave behind, a later entry replacing an
/// earlier one for the same block.
pub open spec fn loaded_images(blocks: Seq<(u32, Vec<u8>)>, n: nat) -> Map<u32, Seq<u8>>
    decreases n,
{
    if n == 0 {
        Map::empty()
    } else {
        loaded_images(blocks, (n - 1) as nat).insert(blocks[n - 1].0, blocks[n - 1].1@)
    }
}

/// The highest block number among `blocks[..n)`, zero where there is none.
pub open spec fn highest_block(blocks: Seq<(u32, Vec<u8>)>, n: nat) -> u32
    decreases n,
{
    if n == 0 {
        0
    } else if blocks[n - 1].0 > highest_block(blocks, (n - 1) as nat) {
        blocks[n - 1].0
    } else {
        highest_block(blocks, (n - 1) as nat)
    }
}

/// The block numbers among `blocks[..n)`, each once, in the order in which
/// they first occur.
pub open spec fn loaded_blocks(blocks: Seq<(u32, Vec<u8>)>, n: nat) -> Seq<u32>
    decreases n,
{
    if n == 0 {
        Seq::empty()
    } else if loaded_images(blocks, (n - 1) as nat).contains_key(blocks[n - 1].0) {
        loaded_blocks(blocks, (n - 1) as nat)
    } else {
        loaded_blocks(blocks, (n - 1) as nat).push(blocks[n - 1].0)
    }
}

/// The state of the block device.
pub struct StorageView {
    /// The image of every block that was written or loaded.
    pub pages: Map<u32, Seq<u8>>,
    /// The highest block written or loaded so far.
    pub max_block: u32,
    /// The blocks written since the images were last handed out for
    /// persisting, in the order of the writes.
    pub pending: Seq<u32>,
    /// The blocks that hold an image, each once, in the order in which they
    /// were first written or loaded.
    pub blocks: Seq<u32>,
}

impl StorageView {
    /// A device without blocks.
    pub open spec fn empty() -> StorageView {
        StorageView {
            pages: Map::empty(),
            max_block: 0,
            pending: Seq::empty(),
            blocks: Seq::empty(),
        }
    }

    /// No block lies past the high-water mark, and the mark leaves room for
    /// the block count to be a block number.
    pub open spec fn wf(&self) -> bool {
        &&& self.max_block < u32::MAX
        &&& forall|k: u32| #[trigger] self.pages.contains_key(k) ==> k <= self.max_block
        &&& forall|k: u32| #[trigger] self.pages.contains_key(k) <==> self.blocks.contains(k)
    }

    /// The device that holds the block images `blocks`, as they were found
    /// where a relation is kept: a later image replaces an earlier one for
    /// the same block, the high-water mark is the highest block among them,
    /// and nothing is pending.
    pub open spec fn opened(blocks: Seq<(u32, Vec<u8>)>) -> StorageView {
        StorageView {
            pages: loaded_images(blocks, blocks.len()),
            max_block: highest_block(blocks, blocks.len()),
            pending: Seq::empty(),
            blocks: loaded_blocks(blocks, blocks.len()),
        }
    }

    /// The device after every block that holds an image was noted as
    /// pending, in the order in which the blocks were first written or
    /// loaded.
    pub open spec fn flushed(&self) -> StorageView {
        StorageView { pending: self.blocks, ..*self }
    }

    /// The blocks with `n` added at the end, unless it is among them.
    pub open spec fn blocks_with(&self, n: u32) -> Seq<u32> {
        if self.pages.contains_key(n) {
            self.blocks
        } else {
            self.blocks.push(n)
        }
    }

    /// The device after the image of block `n` was taken in, as it was found
    /// where the relation is kept, because the device did not hold that
    /// block: the image is held, the high-water mark rises to the block if
    /// it was below, and nothing becomes pending. A block that the device
    /// holds stays as it is.
    pub open spec fn loaded(&self, n: u32, image: Seq<u8>) -> StorageView {
        if self.pages.contains_key(n) {
            *self
        } else {
            StorageView {
                pages: self.pages.insert(n, image),
                max_block: if n > self.max_block {
                    n
                } else {
                    self.max_block
                },
                blocks: self.blocks.push(n),
                ..*self
            }
        }
    }

    /// Adding a block to the list of blocks keeps the list in step with the
    /// images.
    pub proof fn lemma_blocks_with(&self, n: u32, image: Seq<u8>)
        requires
            forall|k: u32| #[trigger] self.pages.contains_key(k) <==> self.blocks.contains(k),
        ensures
            forall|k: u32| #[trigger]
                self.pages.insert(n, image).contains_key(k) <==> self.blocks_with(n).contains(k),
    {
        let next = self.blocks_with(n);
        assert forall|k: u32| #[trigger]
            self.pages.insert(n, image).contains_key(k) <==> next.contains(k) by {
            if self.pages.contains_key(n) {
                if k == n {
                    assert(self.blocks.contains(k));
                }
            } else {
                if k == n {
                    assert(next[self.blocks.len() as int] == k);
                } else {
                    if self.blocks.contains(k) {
                        let i = choose|i: int| 0 <= i < self.blocks.len() && self.blocks[i] == k;
                        assert(next[i] == k);
                    }
                    if next.contains(k) {
                        let i = choose|i: int| 0 <= i < next.len() && next[i] == k;
                        assert(self.blocks[i] == k);
                    }
                }
            }
        }
    }

    /// Taking in a block that was found keeps the device well formed; the
    /// block reads as its image says, and every other block as before.
    pub proof fn lemma_loaded(&self, n: u32, image: Seq<u8>)
        requires
            self.wf(),
            n < u32::MAX,
        ensures
            self.loaded(n, image).wf(),
            forall|k: u32| k != n ==> #[trigger] self.loaded(n, image).read(k) == self.read(k),
            self.pages.contains_key(n) ==> self.loaded(n, image) == *self,
            !self.pages.contains_key(n) ==> self.loaded(n, image).pages[n] == image,
    {
        let next = self.loaded(n, image);
        if !self.pages.contains_key(n) {
            self.lemma_blocks_with(n, image);
            assert forall|k: u32| #[trigger] next.pages.contains_key(k) implies k
                <= next.max_block by {
                if k != n {
                    assert(self.pages.contains_key(k));
                }
            }
        }
    }

    /// The number of blocks: one past the high-water mark, or none on a
    /// device that does not even hold block zero.
    pub open spec fn page_count(&self) -> int {
        if self.max_block == 0 && !self.pages.contains_key(0) {
            0
        } else {
            self.max_block + 1
        }
    }

    /// What reading block `n` gives.
    pub open spec fn read(&self, n: u32) -> ReadOutcome {
        if !self.pages.contains_key(n) {
            ReadOutcome::Missing
        } else if PageView::valid_image(self.pages[n]) {
            ReadOutcome::Page(PageView::parse(self.pages[n]))
        } else {
            ReadOutcome::Corrupt
        }
    }

    /// The device after `image` was written to block `n`.
    pub open spec fn written(&self, n: u32, image: Seq<u8>) -> StorageView {
        StorageView {
            pages: self.pages.insert(n, image),
            max_block: if n > self.max_block {
                n
            } else {
                self.max_block
            },
            pending: self.pending.push(n),
            blocks: self.blocks_with(n),
        }
    }

    /// The device after `page` was written to block `n`.
    pub open spec fn with_page(&self, n: u32, page: PageView) -> StorageView {
        self.written(n, page.image())
    }

    /// Writing a page keeps the device well formed, and reading the block
    /// back gives that page; every other block reads as before.
    pub proof fn lemma_with_page(&self, n: u32, page: PageView)
        requires
            self.wf(),
            n < u32::MAX,
            page.wf(),
            page.page_size >= BLCKSZ,
        ensures
            self.with_page(n, page).wf(),
            self.with_page(n, page).read(n) == ReadOutcome::Page(page),
            forall|k: u32| k != n ==> #[trigger] self.with_page(n, page).read(k) == self.read(k),
            self.with_page(n, page).page_count() >= self.page_count(),
            self.with_page(n, page).page_count() > n,
    {
        page.lemma_parse_image();
        let next = self.with_page(n, page);
        self.lemma_blocks_with(n, page.image());
        assert forall|k: u32| #[trigger] next.pages.contains_key(k) implies k <= next.max_block by {
            if k != n {
                assert(self.pages.contains_key(k));
            }
        }
    }
}

/// The block device of one relation.
pub struct Storage {
    pages: HashMap<u32, Vec<u8>>,
    max_block: u32,
    pending: Vec<u32>,
    blocks: Vec<u32>,
}

impl View for Storage {
    type V = StorageView;

    closed spec fn view(&self) -> StorageView {
        StorageView {
            pages: self.pages@.map_values(|v: Vec<u8>| v@),
            max_block: self.max_block,
            pending: self.pending@,
            blocks: self.blocks@,
        }
    }
}

impl Storage {
    pub open spec fn wf(&self) -> bool {
        self@.wf()
    }

    /// A device without blocks. The call always succeeds.
    pub fn new() -> (r: Result<Self, HeapError>)
        ensures
            r is Ok,
            r->Ok_0@ == StorageView::empty(),
            r->Ok_0.wf(),
    {
        let r = Self {
            pages: HashMap::new(),
            max_block: 0,
            pending: Vec::new(),
            blocks: Vec::new(),
        };
        assert(r@.pages =~= Map::<u32, Seq<u8>>::empty());
        Ok(r)
    }

    /// A device that holds the given block images, as they were found where
    /// the relation is kept. Fails with `StorageError` when a block has the
    /// one number that leaves no room for a block count.
    pub fn open(blocks: Vec<(u32, Vec<u8>)>) -> (r: Result<Self, HeapError>)
        ensures
            match r {
                Ok(s) => {
                    &&& forall|i: int| 0 <= i < blocks@.len() ==>
                        (#[trigger] blocks@[i]).0 < u32::MAX
                    &&& s@ == StorageView::opened(blocks@)
                    &&& s.wf()
                },
                Err(e) => {
                    &&& exists|i: int| 0 <= i < blocks@.len() && (#[trigger] blocks@[i]).0 == u32::MAX
                    &&& e is StorageError
                },
            },
    {
        let mut pages: HashMap<u32, Vec<u8>> = HashMap::new();
        let mut known: Vec<u32> = Vec::new();
        let mut max_block: u32 = 0;
        let mut i: usize = 0;
        assert(pages@.map_values(|v: Vec<u8>| v@) =~= loaded_images(blocks@, 0));
        while i < blocks.len()
            invariant
                i <= blocks.len(),
                pages@.map_values(|v: Vec<u8>| v@) == loaded_images(blocks@, i as nat),
                max_block == highest_block(blocks@, i as nat),
                known@ == loaded_blocks(blocks@, i as nat),
                max_block < u32::MAX,
                forall|k: u32| #[trigger] pages@.contains_key(k) ==> k <= max_block,
                forall|k: u32| #[trigger] pages@.contains_key(k) <==> known@.contains(k),
                forall|j: int| 0 <= j < i ==> (#[trigger] blocks@[j]).0 < u32::MAX,
            decreases blocks.len() - i,
        {
            let block_num = blocks[i].0;
            if block_num == u32::MAX {
                return Err(HeapError::StorageError("block number out of range".to_string()));
            }
            let image = blocks[i].1.clone();
            assert(image@ == blocks@[i as int].1@);
            let ghost before = pages@;
            let ghost so_far = StorageView {
                pages: loaded_images(blocks@, i as nat),
                max_block,
                pending: Seq::empty(),
                blocks: known@,
            };
            proof {
                assert(so_far.pages.dom() =~= before.dom());
                so_far.lemma_blocks_with(block_num, image@);
            }
            if !pages.contains_key(&block_num) {
                known.push(block_num);
            }
            pages.insert(block_num, image);
            assert(pages@.map_values(|v: Vec<u8>| v@) =~= before.map_values(|v: Vec<u8>| v@).insert(
                block_num,
                image@,
            ));
            assert(known@ == so_far.blocks_with(block_num));
            assert(pages@.dom() =~= so_far.pages.insert(block_num, image@).dom());
            if block_num > max_block {
                max_block = block_num;
            }
            i += 1;
        }
        Ok(Self { pages, max_block, pending: Vec::new(), blocks: known })
    }

    /// Reads block `block_num` and checks it. Fails with `PageNotFound` when
    /// the device has no such block, and with `InvalidPage` when the block's
    /// image is not a page.
    pub fn read_page(&self, block_num: u32) -> (r: Result<Page, HeapError>)
        ensures
            match r {
                Ok(p) => self@.read(block_num) == ReadOutcome::Page(p@) && p.wf(),
                Err(e) => match self@.read(block_num) {
                    ReadOutcome::Page(_) => false,
                    ReadOutcome::Missing => e == HeapError::PageNotFound(block_num),
                    ReadOutcome::Corrupt => e is InvalidPage,
                },
            },
    {
        match self.pages.get(&block_num) {
            Some(data) => {
                let image = data.clone();
                assert(image@ == self@.pages[block_num]);
                Page::from_raw(image)
            },
            None => Err(HeapError::PageNotFound(block_num)),
        }
    }

    /// Writes `page` to block `block_num`: the block's image becomes the
    /// image of the page, the high-water mark rises to the block if it was
    /// below, and the block is noted as pending.
    pub fn write_page(&mut self, block_num: u32, page: &Page) -> (r: Result<(), HeapError>)
        requires
            old(self).wf(),
            page.wf(),
            block_num < u32::MAX,
        ensures
            r is Ok,
            final(self)@ == old(self)@.with_page(block_num, page@),
            final(self).wf(),
    {
        let data = page.serialize();
        let ghost before = self.pages@;
        proof {
            old(self)@.lemma_blocks_with(block_num, page@.image());
        }
        if !self.pages.contains_key(&block_num) {
            self.blocks.push(block_num);
        }
        self.pages.insert(block_num, data);
        assert(self.pages@.map_values(|v: Vec<u8>| v@) =~= before.map_values(|v: Vec<u8>| v@).insert(
            block_num,
            page@.image(),
        ));
        if block_num > self.max_block {
            self.max_block = block_num;
        }
        self.pending.push(block_num);
        proof {
            assert forall|k: u32| #[trigger] self@.pages.contains_key(k) implies k
                <= self@.max_block by {
                if k != block_num {
                    assert(old(self)@.pages.contains_key(k));
                }
            }
        }
        Ok(())
    }

    /// Allocates the block after the high-water mark and writes an empty
    /// page of the default size there.
    pub fn allocate_page(&mut self) -> (r: Result<u32, HeapError>)
        requires
            old(self).wf(),
            old(self)@.max_block + 1 < u32::MAX,
        ensures
            r == Ok::<u32, HeapError>((old(self)@.max_block + 1) as u32),
            final(self)@ == old(self)@.with_page(
                (old(self)@.max_block + 1) as u32,
                PageView::empty(BLCKSZ as nat),
            ),
            final(self).wf(),
    {
        let new_block = self.max_block + 1;
        let page = Page::new(BLCKSZ);
        match self.write_page(new_block, &page) {
            Ok(_) => Ok(new_block),
            Err(e) => Err(e),
        }
    }

    /// The number of blocks.
    pub fn page_count(&self) -> (r: u32)
        requires
            self.wf(),
        ensures
            r == self@.page_count(),
    {
        if self.max_block == 0 && !self.pages.contains_key(&0) {
            0
        } else {
            self.max_block + 1
        }
    }

    /// The cached image of block `block_num`, if the device holds it.
    pub fn page_image(&self, block_num: u32) -> (r: Option<Vec<u8>>)
        ensures
            match r {
                Some(image) => self@.pages.contains_key(block_num) && image@
                    == self@.pages[block_num],
                None => !self@.pages.contains_key(block_num),
            },
    {
        match self.pages.get(&block_num) {
            Some(data) => Some(data.clone()),
            None => None,
        }
    }

    /// Hands out the blocks that are pending, in the order of their writes,
    /// and notes none as pending any more.
    pub fn take_pending(&mut self) -> (r: Vec<u32>)
        ensures
            r@ == old(self)@.pending,
            final(self)@ == (StorageView { pending: Seq::empty(), ..old(self)@ }),
    {
        let mut taken: Vec<u32> = Vec::new();
        std::mem::swap(&mut taken, &mut self.pending);
        taken
    }

    /// Notes every block that holds an image as pending, in the order in
    /// which the blocks were first written or loaded, so that all of them
    /// are persisted again.
    pub fn flush(&mut self) -> (r: Result<(), HeapError>)
        requires
            old(self).wf(),
        ensures
            r is Ok,
            final(self)@ == old(self)@.flushed(),
            final(self).wf(),
    {
        let mut all: Vec<u32> = Vec::new();
        let mut i: usize = 0;
        while i < self.blocks.len()
            invariant
                i <= self.blocks.len(),
                *self == *old(self),
                all@ == self.blocks@.subrange(0, i as int),
            decreases self.blocks.len() - i,
        {
            all.push(self.blocks[i]);
            assert(all@ =~= self.blocks@.subrange(0, i + 1));
            i += 1;
        }
        assert(self.blocks@.subrange(0, i as int) =~= self.blocks@);
        self.pending = all;
        proof {
            assert(self@.pages == old(self)@.pages);
            assert(self@.blocks == old(self)@.blocks);
            assert(self@.max_block == old(self)@.max_block);
            assert(old(self)@.wf());
        }
        Ok(())
    }

    /// Closes the device: every block that holds an image is noted as
    /// pending once more.
    pub fn close(&mut self) -> (r: Result<(), HeapError>)
        requires
            old(self).wf(),
        ensures
            r is Ok,
            final(self)@ == old(self)@.flushed(),
            final(self).wf(),
    {
        self.flush()
    }

    /// Takes in the image of a block that was found where the relation is
    /// kept, after the device failed to read it: the block is held from now
    /// on, as if it had been there when the device was opened. A block that
    /// the device holds already stays as it is. Returns whether the image
    /// was taken in.
    pub fn load_block(&mut self, block_num: u32, image: Vec<u8>) -> (r: bool)
        requires
            old(self).wf(),
            block_num < u32::MAX,
        ensures
            r == !old(self)@.pages.contains_key(block_num),
            final(self)@ == old(self)@.loaded(block_num, image@),
            final(self).wf(),
    {
        proof {
            old(self)@.lemma_loaded(block_num, image@);
        }
        if self.pages.contains_key(&block_num) {
            return false;
        }
        let ghost before = self.pages@;
        self.pages.insert(block_num, image);
        assert(self.pages@.map_values(|v: Vec<u8>| v@) =~= before.map_values(|v: Vec<u8>| v@).insert(
            block_num,
            image@,
        ));
        self.blocks.push(block_num);
        if block_num > self.max_block {
            self.max_block = block_num;
        }
        true
    }

    /// Drops every block: the device is empty again.
    pub fn drop_all(&mut self) -> (r: Result<(), HeapError>)
        ensures
            r is Ok,
            final(self)@ == StorageView::empty(),
            final(self).wf(),
    {
        self.pages.clear();
        self.max_block = 0;
        self.pending = Vec::new();
        self.blocks = Vec::new();
        assert(self@.pages =~= Map::<u32, Seq<u8>>::empty());
        Ok(())
    }
}

/// The decimal numeral of `n` in ASCII, without leading zeros.
pub open spec fn decimal_digits(n: nat) -> Seq<u8>
    decreases n,
{
    if n < 10 {
        seq![(48 + n) as u8]
    } else {
        decimal_digits(n / 10).push((48 + n % 10) as u8)
    }
}

/// The number that a string of ASCII digits stands for.
pub open spec fn decimal_value(digits: Seq<u8>) -> nat
    decreases digits.len(),
{
    if digits.len() == 0 {
        0
    } else {
        decimal_value(digits.drop_last()) * 10 + (digits.last() - 48) as nat
    }
}

/// Whether every byte of `s` is an ASCII digit.
pub open spec fn all_digits(s: Seq<u8>) -> bool {
    forall|i: int| 0 <= i < s.len() ==> 48 <= #[trigger] s[i] <= 57
}

/// The extension of a block file, in ASCII: `.dat`.
pub open spec fn block_file_extension() -> Seq<u8> {
    seq![46u8, 100u8, 97u8, 116u8]
}

/// The name of the file that holds block `block`: the decimal block
/// number and the extension.
pub open spec fn block_file_name(block: u32) -> Seq<u8> {
    decimal_digits(block as nat) + block_file_extension()
}

/// The block that a file name stands for: the name ends in the extension,
/// and what stands before it is a decimal number that fits a block number,
/// with or without a plus sign or leading zeros.
pub open spec fn block_of_file_name(name: Seq<u8>) -> Option<u32> {
    if name.len() < 5 || name.subrange(name.len() - 4, name.len() as int)
        != block_file_extension() {
        None
    } else {
        let stem = name.subrange(0, name.len() - 4);
        let digits = if stem[0] == 43 {
            stem.subrange(1, stem.len() as int)
        } else {
            stem
        };
        if digits.len() >= 1 && all_digits(digits) && decimal_value(digits) <= u32::MAX {
            Some(decimal_value(digits) as u32)
        } else {
            None
        }
    }
}

/// A numeral is a non-empty string of digits that stands for its number.
pub proof fn lemma_decimal_digits(n: nat)
    ensures
        decimal_digits(n).len() >= 1,
        all_digits(decimal_digits(n)),
        decimal_value(decimal_digits(n)) == n,
    decreases n,
{
    if n < 10 {
        let d = decimal_digits(n);
        assert(d.drop_last() =~= Seq::<u8>::empty());
        assert(decimal_value(d.drop_last()) == 0);
    } else {
        lemma_decimal_digits(n / 10);
        let d = decimal_digits(n);
        assert(d.drop_last() =~= decimal_digits(n / 10));
    }
}

/// The number of a string of digits is at least the number of any of its
/// beginnings.
pub proof fn lemma_decimal_value_grows(digits: Seq<u8>, n: int)
    requires
        0 <= n <= digits.len(),
        all_digits(digits),
    ensures
        decimal_value(digits.subrange(0, n)) <= decimal_value(digits),
    decreases digits.len() - n,
{
    if n < digits.len() {
        lemma_decimal_value_grows(digits.drop_last(), n);
        assert(digits.drop_last().subrange(0, n) =~= digits.subrange(0, n));
    } else {
        assert(digits.subrange(0, n) =~= digits);
    }
}

/// The name of a block's file names that block.
pub proof fn lemma_block_file_name(block: u32)
    ensures
        block_of_file_name(block_file_name(block)) == Some(block),
{
    let digits = decimal_digits(block as nat);
    let name = block_file_name(block);
    lemma_decimal_digits(block as nat);
    assert(name.subrange(name.len() - 4, name.len() as int) =~= block_file_extension());
    assert(name.subrange(0, name.len() - 4) =~= digits);
    assert(digits[0] != 43);
}

fn push_decimal(out: &mut Vec<u8>, n: u32)
    ensures
        final(out)@ == old(out)@ + decimal_digits(n as nat),
    decreases n,
{
    if n < 10 {
        out.push(48 + n as u8);
        assert(out@ =~= old(out)@ + decimal_digits(n as nat));
    } else {
        push_decimal(out, n / 10);
        out.push(48 + (n % 10) as u8);
        assert(out@ =~= old(out)@ + decimal_digits(n as nat));
    }
}

impl Storage {
    /// The name of the file that holds a block, in ASCII.
    pub fn file_name_of(block_num: u32) -> (r: Vec<u8>)
        ensures
            r@ == block_file_name(block_num),
    {
        let mut name: Vec<u8> = Vec::new();
        push_decimal(&mut name, block_num);
        name.push(46);
        name.push(100);
        name.push(97);
        name.push(116);
        assert(name@ =~= block_file_name(block_num));
        name
    }

    /// The block that a file name stands for, if it is the name of a block
    /// file.
    pub fn block_of(name: &[u8]) -> (r: Option<u32>)
        ensures
            r == block_of_file_name(name@),
    {
        let len = name.len();
        if len < 5 {
            return None;
        }
        if name[len - 4] != 46 || name[len - 3] != 100 || name[len - 2] != 97 || name[len - 1]
            != 116 {
            assert(name@.subrange(len - 4, len as int)[0] == name@[len - 4]);
            assert(name@.subrange(len - 4, len as int)[1] == name@[len - 3]);
            assert(name@.subrange(len - 4, len as int)[2] == name@[len - 2]);
            assert(name@.subrange(len - 4, len as int)[3] == name@[len - 1]);
            return None;
        }
        assert(name@.subrange(len - 4, len as int) =~= block_file_extension());
        let end = len - 4;
        let start: usize = if name[0] == 43 {
            1
        } else {
            0
        };
        let ghost stem = name@.subrange(0, end as int);
        let ghost digits = if stem[0] == 43 {
            stem.subrange(1, stem.len() as int)
        } else {
            stem
        };
        assert(digits =~= name@.subrange(start as int, end as int));
        if start >= end {
            return None;
        }
        let mut value: u64 = 0;
        let mut i: usize = start;
        assert(digits.subrange(0, 0) =~= Seq::<u8>::empty());
        let ghost expected = if digits.len() >= 1 && all_digits(digits) && decimal_value(digits)
            <= u32::MAX {
            Some(decimal_value(digits) as u32)
        } else {
            None
        };
        assert(block_of_file_name(name@) == expected);
        while i < end
            invariant
                block_of_file_name(name@) == expected,
                expected == if digits.len() >= 1 && all_digits(digits) && decimal_value(digits)
                    <= u32::MAX {
                    Some(decimal_value(digits) as u32)
                } else {
                    None
                },
                start < end,
                start <= i <= end,
                end == len - 4,
                len == name@.len(),
                digits == name@.subrange(start as int, end as int),
                all_digits(digits.subrange(0, i - start)),
                value == decimal_value(digits.subrange(0, i - start)),
                value <= u32::MAX,
            decreases end - i,
        {
            let c = name[i];
            if c < 48 || c > 57 {
                assert(digits[i - start] == c);
                return None;
            }
            let ghost upto = digits.subrange(0, i + 1 - start);
            proof {
                assert(upto.drop_last() =~= digits.subrange(0, i - start));
                assert(upto.last() == c);
                assert forall|j: int| 0 <= j < upto.len() implies 48 <= #[trigger] upto[j] <= 57 by {
                    if j < upto.len() - 1 {
                        assert(digits.subrange(0, i - start)[j] == upto[j]);
                    }
                }
            }
            value = value * 10 + (c - 48) as u64;
            if value > u32::MAX as u64 {
                proof {
                    if all_digits(digits) {
                        lemma_decimal_value_grows(digits, i + 1 - start);
                    }
                }
                return None;
            }
            i += 1;
        }
        assert(digits.subrange(0, end - start) =~= digits);
        Some(value as u32)
    }
}

} // verus!
