//! The free-space map: for each block, how many bytes its page has free.

use crate::constants::PAGE_FULL_THRESHOLD;
use crate::error::HeapError;
use std::collections::HashMap;
use vstd::prelude::*;

verus! {

/// The free space that the map records for a page with `free` bytes free:
/// fragments below the threshold count as nothing.
pub open spec fn recorded_space(free: u16) -> u16 {
    if free < PAGE_FULL_THRESHOLD {
        0
    } else {
        free
    }
}

/// The free-space map of a relation.
pub struct FreeSpaceMap {
    page_free_space: HashMap<u32, u16>,
    page_size: usize,
    blocks: Vec<u32>,
}

impl View for FreeSpaceMap {
    type V = Map<u32, u16>;

    closed spec fn view(&self) -> Map<u32, u16> {
        self.page_free_space@
    }
}

impl FreeSpaceMap {
    /// The list of recorded blocks holds exactly the blocks on record.
    pub closed spec fn wf(&self) -> bool {
        forall|k: u32| #[trigger]
            self.page_free_space@.contains_key(k) <==> self.blocks@.contains(k)
    }

    /// The page size that the map was made for.
    pub closed spec fn spec_page_size(&self) -> usize {
        self.page_size
    }

    /// An empty map for pages of `page_size` bytes.
    pub fn new(page_size: usize) -> (r: Self)
        ensures
            r@ == Map::<u32, u16>::empty(),
            r.spec_page_size() == page_size,
            r.wf(),
    {
        Self { page_free_space: HashMap::new(), page_size, blocks: Vec::new() }
    }

    /// Records the free space of a block. Less than 32 bytes are recorded as
    /// none.
    pub fn update(&mut self, block_num: u32, free_space: u16) -> (r: Result<(), HeapError>)
        requires
            old(self).wf(),
        ensures
            r is Ok,
            final(self)@ == old(self)@.insert(block_num, recorded_space(free_space)),
            final(self).spec_page_size() == old(self).spec_page_size(),
            final(self).wf(),
    {
        let known = self.page_free_space.contains_key(&block_num);
        if free_space < 32 {
            self.page_free_space.insert(block_num, 0);
        } else {
            self.page_free_space.insert(block_num, free_space);
        }
        if !known {
            self.blocks.push(block_num);
        }
        proof {
            let before = old(self).blocks@;
            assert forall|k: u32| #[trigger]
                self.page_free_space@.contains_key(k) <==> self.blocks@.contains(k) by {
                if known {
                    assert(self.blocks@ == before);
                    if k == block_num {
                        assert(old(self).page_free_space@.contains_key(k));
                    }
                } else {
                    assert(self.blocks@ == before.push(block_num));
                    if k == block_num {
                        assert(self.blocks@[before.len() as int] == k);
                    } else {
                        if before.contains(k) {
                            let i = choose|i: int| 0 <= i < before.len() && before[i] == k;
                            assert(self.blocks@[i] == k);
                        }
                        if self.blocks@.contains(k) {
                            let i = choose|i: int| 0 <= i < self.blocks@.len() && self.blocks@[i] == k;
                            assert(before[i] == k);
                        }
                    }
                }
            }
        }
        Ok(())
    }

    /// The free space on record for a block, zero where there is none.
    pub fn get_free_space(&self, block_num: u32) -> (r: u16)
        ensures
            r == if self@.contains_key(block_num) {
                self@[block_num]
            } else {
                0
            },
    {
        match self.page_free_space.get(&block_num) {
            Some(space) => *space,
            None => 0,
        }
    }

    /// A block with at least `required_space` bytes free: one with the most
    /// free space on record, and among those the lowest. `None` exactly when
    /// no block has that much.
    pub fn find_page_with_space(&self, required_space: u16) -> (r: Option<u32>)
        requires
            self.wf(),
        ensures
            match r {
                Some(block) => {
                    &&& self@.contains_key(block)
                    &&& self@[block] >= required_space
                    &&& forall|k: u32| #[trigger] self@.contains_key(k) ==> self@[k] <= self@[block]
                    &&& forall|k: u32|
                        #[trigger] self@.contains_key(k) && self@[k] == self@[block] ==> block <= k
                },
                None => forall|k: u32| #[trigger] self@.contains_key(k) ==>
                    self@[k] < required_space,
            },
    {
        let mut best: Option<u32> = None;
        let mut best_space: u16 = 0;
        let mut i: usize = 0;
        while i < self.blocks.len()
            invariant
                self.wf(),
                i <= self.blocks.len(),
                match best {
                    Some(block) => {
                        &&& self@.contains_key(block)
                        &&& self@[block] == best_space
                        &&& best_space >= required_space
                        &&& forall|j: int|
                            0 <= j < i ==> self@[#[trigger] self.blocks@[j]] <= best_space
                        &&& forall|j: int|
                            0 <= j < i && self@[#[trigger] self.blocks@[j]] == best_space
                                ==> block <= self.blocks@[j]
                    },
                    None => forall|j: int|
                        0 <= j < i ==> self@[#[trigger] self.blocks@[j]] < required_space,
                },
            decreases self.blocks.len() - i,
        {
            let block = self.blocks[i];
            assert(self.blocks@.contains(block));
            match self.page_free_space.get(&block) {
                Some(space) => {
                    let space = *space;
                    if space >= required_space {
                        let better = match best {
                            Some(chosen) => space > best_space || (space == best_space && block
                                < chosen),
                            None => true,
                        };
                        if better {
                            best = Some(block);
                            best_space = space;
                        }
                    }
                },
                None => {},
            }
            i += 1;
        }
        proof {
            assert forall|k: u32| #[trigger] self@.contains_key(k) implies (match best {
                Some(block) => self@[k] <= self@[block] && (self@[k] == self@[block] ==> block
                    <= k),
                None => self@[k] < required_space,
            }) by {
                assert(self.blocks@.contains(k));
                let j = choose|j: int| 0 <= j < self.blocks@.len() && self.blocks@[j] == k;
                assert(self.blocks@[j] == k);
            }
        }
        best
    }

    /// A copy of the whole map.
    pub fn get_all_free_space(&self) -> (r: HashMap<u32, u16>)
        ensures
            r@ == self@,
    {
        self.page_free_space.clone()
    }
}

} // verus!
