//! The visibility map: one bit per block, set where every tuple of the
//! block is visible to every snapshot.

use crate::codec::{lemma_byte_bit, zero_bytes, zeroed};
use crate::constants::BLCKSZ;
use crate::error::HeapError;
use std::collections::HashMap;
use vstd::prelude::*;

verus! {

/// The number of blocks whose bits share one page of the map.
pub const BLOCKS_PER_MAP_PAGE: u32 = 8192;

/// Whether the bit of `block` is set in the pages of a map.
pub open spec fn bit_is_set(pages: Map<u32, Seq<u8>>, block: u32) -> bool {
    let page = block / BLOCKS_PER_MAP_PAGE;
    let bit = block % BLOCKS_PER_MAP_PAGE;
    pages.contains_key(page) && pages[page][(bit / 8) as int] & (1u8 << ((bit % 8) as u8)) != 0
}

/// The blocks below `n` whose bit is set, ascending.
pub open spec fn visible_below(pages: Map<u32, Seq<u8>>, n: nat) -> Seq<u32>
    decreases n,
{
    if n == 0 {
        Seq::empty()
    } else if bit_is_set(pages, (n - 1) as u32) {
        visible_below(pages, (n - 1) as nat).push((n - 1) as u32)
    } else {
        visible_below(pages, (n - 1) as nat)
    }
}

/// The visibility map of a relation.
pub struct VisibilityMap {
    pages: HashMap<u32, Vec<u8>>,
    page_size: usize,
}

impl VisibilityMap {
    /// The pages of the map, as bytes.
    pub closed spec fn pages(&self) -> Map<u32, Seq<u8>> {
        self.pages@.map_values(|v: Vec<u8>| v@)
    }

    /// Every page of the map is a default page long.
    pub closed spec fn wf(&self) -> bool {
        &&& self.page_size == BLCKSZ
        &&& forall|k: u32| #[trigger]
            self.pages@.contains_key(k) ==> self.pages@[k]@.len() == BLCKSZ
    }

    /// Whether the map calls `block` all-visible.
    pub open spec fn spec_is_all_visible(&self, block: u32) -> bool {
        bit_is_set(self.pages(), block)
    }

    /// A map that calls no block all-visible.
    pub fn new() -> (r: Self)
        ensures
            r.wf(),
            forall|b: u32| !r.spec_is_all_visible(b),
    {
        let r = Self { pages: HashMap::new(), page_size: BLCKSZ };
        assert(r.pages() =~= Map::<u32, Seq<u8>>::empty());
        r
    }

    /// Sets or clears the bit of a block. No other block's bit changes.
    pub fn set_all_visible(&mut self, block_num: u32, all_visible: bool) -> (r: Result<
        (),
        HeapError,
    >)
        requires
            old(self).wf(),
        ensures
            r is Ok,
            final(self).wf(),
            final(self).spec_is_all_visible(block_num) == all_visible,
            forall|b: u32|
                b != block_num ==>
                    #[trigger] final(self).spec_is_all_visible(b) == old(self).spec_is_all_visible(b),
    {
        let vm_page_num = block_num / 8192;
        let bit_pos = block_num % 8192;
        let index = (bit_pos / 8) as usize;
        let bit = (bit_pos % 8) as u8;
        let mut entry = match self.pages.get(&vm_page_num) {
            Some(e) => e.clone(),
            None => zeroed(self.page_size),
        };
        let ghost before = entry@;
        let old_byte = entry[index];
        if all_visible {
            entry[index] = old_byte | (1u8 << bit);
        } else {
            entry[index] = old_byte & !(1u8 << bit);
        }
        let ghost after = entry@;
        self.pages.insert(vm_page_num, entry);
        proof {
            assert(self.pages() =~= old(self).pages().insert(vm_page_num, after));
            lemma_byte_bit(old_byte, bit, bit);
            assert(0u8 & (1u8 << bit) == 0) by (bit_vector)
                requires
                    bit < 8,
            ;
            assert forall|b: u32| b != block_num implies #[trigger] self.spec_is_all_visible(b)
                == old(self).spec_is_all_visible(b) by {
                let page = b / 8192;
                let pos = b % 8192;
                let other = (pos % 8) as u8;
                if page == vm_page_num {
                    if (pos / 8) as usize == index {
                        lemma_byte_bit(old_byte, bit, other);
                    }
                    if !old(self).pages().contains_key(page) {
                        assert(before == zero_bytes(BLCKSZ as nat));
                        assert(0u8 & (1u8 << other) == 0) by (bit_vector)
                            requires
                                other < 8,
                        ;
                    }
                }
            }
        }
        Ok(())
    }

    /// Whether the map calls `block_num` all-visible.
    pub fn is_all_visible(&self, block_num: u32) -> (r: bool)
        requires
            self.wf(),
        ensures
            r == self.spec_is_all_visible(block_num),
    {
        let vm_page_num = block_num / 8192;
        let bit_pos = block_num % 8192;
        match self.pages.get(&vm_page_num) {
            Some(entry) => (entry[(bit_pos / 8) as usize] & (1u8 << ((bit_pos % 8) as u8))) != 0,
            None => false,
        }
    }

    /// Notes a write to a block: its bit is cleared.
    pub fn set_page_dirty(&mut self, block_num: u32) -> (r: Result<(), HeapError>)
        requires
            old(self).wf(),
        ensures
            r is Ok,
            final(self).wf(),
            !final(self).spec_is_all_visible(block_num),
            forall|b: u32|
                b != block_num ==>
                    #[trigger] final(self).spec_is_all_visible(b) == old(self).spec_is_all_visible(b),
    {
        self.set_all_visible(block_num, false)
    }

    /// The all-visible blocks among the first `page_count`, ascending.
    pub fn get_visible_blocks(&self, page_count: u32) -> (r: Vec<u32>)
        requires
            self.wf(),
        ensures
            r@ == visible_below(self.pages(), page_count as nat),
    {
        let mut visible: Vec<u32> = Vec::new();
        let mut block_num: u32 = 0;
        while block_num < page_count
            invariant
                self.wf(),
                block_num <= page_count,
                visible@ == visible_below(self.pages(), block_num as nat),
            decreases page_count - block_num,
        {
            if self.is_all_visible(block_num) {
                visible.push(block_num);
            }
            block_num += 1;
        }
        visible
    }
}

impl Default for VisibilityMap {
    fn default() -> (r: Self)
        ensures
            r.wf(),
    {
        Self::new()
    }
}

} // verus!
