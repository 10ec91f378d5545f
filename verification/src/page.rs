//! The slotted page: item identifiers grow from the header, tuple bodies grow
//! from the end, and the gap between them is the free space.

use crate::codec::{
    copy_range, lemma_flag_update, overlay, put_bytes, read_u16_le, read_u32_le, read_u64_le,
    span_mut, u16_le, u32_le, u64_le, zeroed,
};
use crate::constants::{
    BLCKSZ, HEAP_PAGE_VERSION, ITEM_ID_SIZE, LP_DEAD, LP_NORMAL, LP_USED, MAX_PAGE_SIZE,
    PAGE_FULL_THRESHOLD, PAGE_HEADER_SIZE, PD_ALL_VISIBLE, PD_HAS_FREE_LINES, PD_PAGE_FULL,
};
use crate::error::HeapError;
use vstd::bytes::{
    lemma_auto_spec_u16_to_from_le_bytes, lemma_auto_spec_u32_to_from_le_bytes,
    lemma_auto_spec_u64_to_from_le_bytes, spec_u16_from_le_bytes, spec_u16_to_le_bytes,
    spec_u32_from_le_bytes, spec_u32_to_le_bytes, spec_u64_from_le_bytes, spec_u64_to_le_bytes,
};
use vstd::prelude::*;
use vstd::slice::slice_subrange;

verus! {

/// No two page flags share a bit.
pub proof fn lemma_page_flags_disjoint()
    by (bit_vector)
    ensures
        PD_HAS_FREE_LINES & PD_PAGE_FULL == 0,
        PD_HAS_FREE_LINES & PD_ALL_VISIBLE == 0,
        PD_PAGE_FULL & PD_HAS_FREE_LINES == 0,
        PD_PAGE_FULL & PD_ALL_VISIBLE == 0,
        PD_ALL_VISIBLE & PD_HAS_FREE_LINES == 0,
        PD_ALL_VISIBLE & PD_PAGE_FULL == 0,
{
}

/// The fixed header at the start of every page.
#[derive(Debug, Clone, Copy)]
pub struct PageHeaderData {
    pub pd_lsn: u64,
    pub pd_checksum: u16,
    pub pd_flags: u16,
    pub pd_lower: u16,
    pub pd_upper: u16,
    pub pd_special: u16,
    pub pd_pagesize_version: u16,
    pub pd_prune_xid: u32,
}

/// The size and layout version as the header stores them: the size shifted
/// above the four version bits, cut to sixteen bits.
pub open spec fn pagesize_version(size: u16) -> u16 {
    (size << 4) | HEAP_PAGE_VERSION
}

impl PageHeaderData {
    /// The header of an empty page of `size` bytes.
    pub open spec fn empty(size: u16) -> PageHeaderData {
        PageHeaderData {
            pd_lsn: 0,
            pd_checksum: 0,
            pd_flags: 0,
            pd_lower: 24,
            pd_upper: size,
            pd_special: size,
            pd_pagesize_version: pagesize_version(size),
            pd_prune_xid: 0,
        }
    }

    pub fn new(size: usize) -> (r: Self)
        requires
            size <= u16::MAX,
        ensures
            r == Self::empty(size as u16),
    {
        let size16 = size as u16;
        Self {
            pd_lsn: 0,
            pd_checksum: 0,
            pd_flags: 0,
            pd_lower: 24,
            pd_upper: size16,
            pd_special: size16,
            pd_pagesize_version: (size16 << 4) | HEAP_PAGE_VERSION,
            pd_prune_xid: 0,
        }
    }

    pub fn size() -> (r: usize)
        ensures
            r == PAGE_HEADER_SIZE,
    {
        24
    }

    /// Whether the bits of `bit` are set in the flags.
    pub open spec fn flag(&self, bit: u16) -> bool {
        self.pd_flags & bit != 0
    }

    /// This header with the bits of `bit` set or cleared.
    pub open spec fn with_flag(self, bit: u16, on: bool) -> PageHeaderData {
        PageHeaderData {
            pd_flags: if on {
                self.pd_flags | bit
            } else {
                self.pd_flags & !bit
            },
            ..self
        }
    }

    pub fn has_free_lines(&self) -> (r: bool)
        ensures
            r == self.flag(PD_HAS_FREE_LINES),
    {
        (self.pd_flags & PD_HAS_FREE_LINES) != 0
    }

    pub fn set_has_free_lines(&mut self, has: bool)
        ensures
            *final(self) == old(self).with_flag(PD_HAS_FREE_LINES, has),
            final(self).flag(PD_HAS_FREE_LINES) == has,
            final(self).flag(PD_PAGE_FULL) == old(self).flag(PD_PAGE_FULL),
            final(self).flag(PD_ALL_VISIBLE) == old(self).flag(PD_ALL_VISIBLE),
    {
        proof {
            lemma_page_flags_disjoint();
            lemma_flag_update(self.pd_flags, PD_HAS_FREE_LINES, PD_PAGE_FULL);
            lemma_flag_update(self.pd_flags, PD_HAS_FREE_LINES, PD_ALL_VISIBLE);
        }
        if has {
            self.pd_flags = self.pd_flags | PD_HAS_FREE_LINES;
        } else {
            self.pd_flags = self.pd_flags & !PD_HAS_FREE_LINES;
        }
    }

    pub fn is_page_full(&self) -> (r: bool)
        ensures
            r == self.flag(PD_PAGE_FULL),
    {
        (self.pd_flags & PD_PAGE_FULL) != 0
    }

    pub fn set_page_full(&mut self, full: bool)
        ensures
            *final(self) == old(self).with_flag(PD_PAGE_FULL, full),
            final(self).flag(PD_PAGE_FULL) == full,
            final(self).flag(PD_HAS_FREE_LINES) == old(self).flag(PD_HAS_FREE_LINES),
            final(self).flag(PD_ALL_VISIBLE) == old(self).flag(PD_ALL_VISIBLE),
    {
        proof {
            lemma_page_flags_disjoint();
            lemma_flag_update(self.pd_flags, PD_PAGE_FULL, PD_HAS_FREE_LINES);
            lemma_flag_update(self.pd_flags, PD_PAGE_FULL, PD_ALL_VISIBLE);
        }
        if full {
            self.pd_flags = self.pd_flags | PD_PAGE_FULL;
        } else {
            self.pd_flags = self.pd_flags & !PD_PAGE_FULL;
        }
    }

    pub fn all_visible(&self) -> (r: bool)
        ensures
            r == self.flag(PD_ALL_VISIBLE),
    {
        (self.pd_flags & PD_ALL_VISIBLE) != 0
    }

    pub fn set_all_visible(&mut self, visible: bool)
        ensures
            *final(self) == old(self).with_flag(PD_ALL_VISIBLE, visible),
            final(self).flag(PD_ALL_VISIBLE) == visible,
            final(self).flag(PD_HAS_FREE_LINES) == old(self).flag(PD_HAS_FREE_LINES),
            final(self).flag(PD_PAGE_FULL) == old(self).flag(PD_PAGE_FULL),
    {
        proof {
            lemma_page_flags_disjoint();
            lemma_flag_update(self.pd_flags, PD_ALL_VISIBLE, PD_HAS_FREE_LINES);
            lemma_flag_update(self.pd_flags, PD_ALL_VISIBLE, PD_PAGE_FULL);
        }
        if visible {
            self.pd_flags = self.pd_flags | PD_ALL_VISIBLE;
        } else {
            self.pd_flags = self.pd_flags & !PD_ALL_VISIBLE;
        }
    }

    /// The bytes between the item identifiers and the tuple bodies.
    pub open spec fn spec_free_space(&self) -> int {
        self.pd_upper - self.pd_lower
    }

    pub fn free_space(&self, page_size: usize) -> (r: usize)
        requires
            self.pd_lower <= self.pd_upper,
        ensures
            r == self.spec_free_space(),
    {
        (self.pd_upper - self.pd_lower) as usize
    }

    /// The 24 bytes of the header on disk: every field little-endian, in
    /// declaration order.
    pub open spec fn encode(&self) -> Seq<u8> {
        spec_u64_to_le_bytes(self.pd_lsn) + spec_u16_to_le_bytes(self.pd_checksum)
            + spec_u16_to_le_bytes(self.pd_flags) + spec_u16_to_le_bytes(self.pd_lower)
            + spec_u16_to_le_bytes(self.pd_upper) + spec_u16_to_le_bytes(self.pd_special)
            + spec_u16_to_le_bytes(self.pd_pagesize_version) + spec_u32_to_le_bytes(
            self.pd_prune_xid,
        )
    }

    /// The header that the first 24 bytes of `b` encode.
    pub open spec fn decode(b: Seq<u8>) -> PageHeaderData
        recommends
            b.len() >= 24,
    {
        PageHeaderData {
            pd_lsn: spec_u64_from_le_bytes(b.subrange(0, 8)),
            pd_checksum: spec_u16_from_le_bytes(b.subrange(8, 10)),
            pd_flags: spec_u16_from_le_bytes(b.subrange(10, 12)),
            pd_lower: spec_u16_from_le_bytes(b.subrange(12, 14)),
            pd_upper: spec_u16_from_le_bytes(b.subrange(14, 16)),
            pd_special: spec_u16_from_le_bytes(b.subrange(16, 18)),
            pd_pagesize_version: spec_u16_from_le_bytes(b.subrange(18, 20)),
            pd_prune_xid: spec_u32_from_le_bytes(b.subrange(20, 24)),
        }
    }

    /// An encoded header is 24 bytes long and decodes to the header it came
    /// from, whatever follows it.
    pub proof fn lemma_decode_encode(&self, rest: Seq<u8>)
        ensures
            self.encode().len() == 24,
            Self::decode(self.encode() + rest) == *self,
    {
        lemma_auto_spec_u16_to_from_le_bytes();
        lemma_auto_spec_u32_to_from_le_bytes();
        lemma_auto_spec_u64_to_from_le_bytes();
        let b = self.encode() + rest;
        assert(b.subrange(0, 8) =~= spec_u64_to_le_bytes(self.pd_lsn));
        assert(b.subrange(8, 10) =~= spec_u16_to_le_bytes(self.pd_checksum));
        assert(b.subrange(10, 12) =~= spec_u16_to_le_bytes(self.pd_flags));
        assert(b.subrange(12, 14) =~= spec_u16_to_le_bytes(self.pd_lower));
        assert(b.subrange(14, 16) =~= spec_u16_to_le_bytes(self.pd_upper));
        assert(b.subrange(16, 18) =~= spec_u16_to_le_bytes(self.pd_special));
        assert(b.subrange(18, 20) =~= spec_u16_to_le_bytes(self.pd_pagesize_version));
        assert(b.subrange(20, 24) =~= spec_u32_to_le_bytes(self.pd_prune_xid));
    }

    /// The encoded header as a vector.
    pub fn to_bytes(&self) -> (v: Vec<u8>)
        ensures
            v@ == self.encode(),
            v@.len() == 24,
    {
        proof {
            lemma_auto_spec_u16_to_from_le_bytes();
            lemma_auto_spec_u32_to_from_le_bytes();
            lemma_auto_spec_u64_to_from_le_bytes();
        }
        let mut v: Vec<u8> = zeroed(24);
        let lsn = u64_le(self.pd_lsn);
        put_bytes(&mut v, 0, &lsn);
        let checksum = u16_le(self.pd_checksum);
        put_bytes(&mut v, 8, &checksum);
        let flags = u16_le(self.pd_flags);
        put_bytes(&mut v, 10, &flags);
        let lower = u16_le(self.pd_lower);
        put_bytes(&mut v, 12, &lower);
        let upper = u16_le(self.pd_upper);
        put_bytes(&mut v, 14, &upper);
        let special = u16_le(self.pd_special);
        put_bytes(&mut v, 16, &special);
        let version = u16_le(self.pd_pagesize_version);
        put_bytes(&mut v, 18, &version);
        let prune = u32_le(self.pd_prune_xid);
        put_bytes(&mut v, 20, &prune);
        assert(v@ =~= self.encode());
        v
    }

    /// Writes the encoded header over the start of `buf`. A buffer shorter
    /// than the header receives the bytes that fit and the call fails.
    pub fn serialize(&self, buf: &mut [u8]) -> (r: Result<(), HeapError>)
        ensures
            final(buf)@.len() == old(buf)@.len(),
            old(buf)@.len() >= 24 ==> r is Ok && final(buf)@ == overlay(
                old(buf)@,
                0,
                self.encode(),
            ),
            old(buf)@.len() < 24 ==> r is Err && r->Err_0 is IoError && final(buf)@
                == self.encode().subrange(0, old(buf)@.len() as int),
    {
        let enc = self.to_bytes();
        let len = buf.len();
        let n: usize = if len < 24 {
            len
        } else {
            24
        };
        let mut i: usize = 0;
        while i < n
            invariant
                i <= n <= 24,
                n <= len,
                len == buf@.len(),
                len == old(buf)@.len(),
                enc@.len() == 24,
                buf@ == overlay(old(buf)@, 0, enc@.subrange(0, i as int)),
            decreases n - i,
        {
            buf[i] = enc[i];
            assert(buf@ =~= overlay(old(buf)@, 0, enc@.subrange(0, i + 1)));
            i += 1;
        }
        if len < 24 {
            assert(buf@ =~= enc@.subrange(0, len as int));
            Err(HeapError::IoError("failed to write whole buffer".to_string()))
        } else {
            assert(enc@.subrange(0, 24) =~= enc@);
            Ok(())
        }
    }

    /// Reads a header from the start of `buf`.
    pub fn deserialize(buf: &[u8]) -> (r: Result<Self, HeapError>)
        ensures
            buf@.len() >= 24 ==> r == Ok::<Self, HeapError>(Self::decode(buf@)),
            buf@.len() < 24 ==> r is Err && r->Err_0 is InvalidPage,
    {
        if buf.len() < 24 {
            return Err(HeapError::InvalidPage("buffer too small".to_string()));
        }
        let pd_lsn = read_u64_le(slice_subrange(buf, 0, 8));
        let pd_checksum = read_u16_le(slice_subrange(buf, 8, 10));
        let pd_flags = read_u16_le(slice_subrange(buf, 10, 12));
        let pd_lower = read_u16_le(slice_subrange(buf, 12, 14));
        let pd_upper = read_u16_le(slice_subrange(buf, 14, 16));
        let pd_special = read_u16_le(slice_subrange(buf, 16, 18));
        let pd_pagesize_version = read_u16_le(slice_subrange(buf, 18, 20));
        let pd_prune_xid = read_u32_le(slice_subrange(buf, 20, 24));
        proof {
            assert(buf@.subrange(0, 8).subrange(0, 8) =~= buf@.subrange(0, 8));
            assert(buf@.subrange(8, 10).subrange(0, 2) =~= buf@.subrange(8, 10));
            assert(buf@.subrange(10, 12).subrange(0, 2) =~= buf@.subrange(10, 12));
            assert(buf@.subrange(12, 14).subrange(0, 2) =~= buf@.subrange(12, 14));
            assert(buf@.subrange(14, 16).subrange(0, 2) =~= buf@.subrange(14, 16));
            assert(buf@.subrange(16, 18).subrange(0, 2) =~= buf@.subrange(16, 18));
            assert(buf@.subrange(18, 20).subrange(0, 2) =~= buf@.subrange(18, 20));
            assert(buf@.subrange(20, 24).subrange(0, 4) =~= buf@.subrange(20, 24));
        }
        Ok(
            Self {
                pd_lsn,
                pd_checksum,
                pd_flags,
                pd_lower,
                pd_upper,
                pd_special,
                pd_pagesize_version,
                pd_prune_xid,
            },
        )
    }
}

impl Default for PageHeaderData {
    fn default() -> (r: Self)
        ensures
            r == Self::empty(BLCKSZ as u16),
    {
        Self::new(BLCKSZ)
    }
}

/// One item identifier: the offset of a tuple body within the page in the low
/// 15 bits, its length in the next 15, and its status in the top two.
#[derive(Debug, Clone, Copy)]
pub struct ItemIdData {
    pub bits: u32,
}

/// The packing of an offset, a length and a status into one identifier. Each
/// field is cut to its width.
pub open spec fn pack_item_id(off: u16, len: u16, flags: u8) -> u32 {
    ((off as u32) & 0x7FFF) | (((len as u32) & 0x7FFF) << 15) | (((flags as u32) & 0x3) << 30)
}

/// Unpacking returns what was packed, each field cut to its width; fields that
/// fit come back unchanged.
pub proof fn lemma_pack_item_id(off: u16, len: u16, flags: u8)
    by (bit_vector)
    ensures
        pack_item_id(off, len, flags) & 0x7FFF == (off as u32) & 0x7FFF,
        (pack_item_id(off, len, flags) >> 15) & 0x7FFF == (len as u32) & 0x7FFF,
        pack_item_id(off, len, flags) >> 30 == (flags as u32) & 0x3,
        off <= 0x7FFF ==> (off as u32) & 0x7FFF == off as u32,
        (off as u32) & 0x7FFF <= off as u32,
        len <= 0x7FFF ==> (len as u32) & 0x7FFF == len as u32,
        flags <= 3 ==> (flags as u32) & 0x3 == flags as u32,
{
}

/// The three fields of an identifier stay within their widths.
pub proof fn lemma_item_id_ranges(bits: u32)
    by (bit_vector)
    ensures
        bits & 0x7FFF <= 0x7FFF,
        (bits >> 15) & 0x7FFF <= 0x7FFF,
        bits >> 30 <= 3,
{
}

impl ItemIdData {
    pub fn new() -> (r: Self)
        ensures
            r.bits == 0,
    {
        Self { bits: 0 }
    }

    pub open spec fn spec_offset(&self) -> u16 {
        (self.bits & 0x7FFF) as u16
    }

    pub open spec fn spec_length(&self) -> u16 {
        ((self.bits >> 15) & 0x7FFF) as u16
    }

    pub open spec fn spec_flags(&self) -> u8 {
        (self.bits >> 30) as u8
    }

    pub open spec fn spec_is_used(&self) -> bool {
        self.spec_flags() == LP_USED
    }

    pub open spec fn spec_is_dead(&self) -> bool {
        self.spec_flags() == LP_DEAD
    }

    /// The identifier of a dead slot: status DEAD, no offset, no length.
    pub open spec fn dead() -> ItemIdData {
        ItemIdData { bits: 0x8000_0000 }
    }

    pub fn set(&mut self, off: u16, len: u16, flags: u8)
        ensures
            final(self).bits == pack_item_id(off, len, flags),
            off <= 0x7FFF ==> final(self).spec_offset() == off,
            final(self).spec_offset() <= off,
            len <= 0x7FFF ==> final(self).spec_length() == len,
            flags <= 3 ==> final(self).spec_flags() == flags,
    {
        proof {
            lemma_pack_item_id(off, len, flags);
        }
        self.bits = ((off as u32) & 0x7FFF) | (((len as u32) & 0x7FFF) << 15) | (((flags as u32)
            & 0x3) << 30);
    }

    pub fn offset(&self) -> (r: u16)
        ensures
            r == self.spec_offset(),
            r <= 0x7FFF,
    {
        proof {
            lemma_item_id_ranges(self.bits);
        }
        (self.bits & 0x7FFF) as u16
    }

    pub fn length(&self) -> (r: u16)
        ensures
            r == self.spec_length(),
            r <= 0x7FFF,
    {
        proof {
            lemma_item_id_ranges(self.bits);
        }
        ((self.bits >> 15) & 0x7FFF) as u16
    }

    pub fn flags(&self) -> (r: u8)
        ensures
            r == self.spec_flags(),
            r <= 3,
    {
        proof {
            lemma_item_id_ranges(self.bits);
        }
        (self.bits >> 30) as u8
    }

    pub fn is_used(&self) -> (r: bool)
        ensures
            r == self.spec_is_used(),
    {
        self.flags() == LP_USED
    }

    pub fn is_dead(&self) -> (r: bool)
        ensures
            r == self.spec_is_dead(),
    {
        self.flags() == LP_DEAD
    }

    pub fn is_normal(&self) -> (r: bool)
        ensures
            r == (self.spec_flags() == LP_NORMAL),
    {
        self.flags() == LP_NORMAL
    }
}

impl Default for ItemIdData {
    fn default() -> (r: Self)
        ensures
            r.bits == 0,
    {
        Self::new()
    }
}

/// Whether the bodies of two items share no byte, where both are in use and
/// not empty.
pub open spec fn apart(a: ItemIdData, b: ItemIdData) -> bool {
    a.spec_is_used() && b.spec_is_used() && a.spec_length() > 0 && b.spec_length() > 0 ==> {
        ||| a.spec_offset() + a.spec_length() <= b.spec_offset()
        ||| b.spec_offset() + b.spec_length() <= a.spec_offset()
    }
}

/// What a page holds, apart from the bytes of its free space: the header, the
/// item identifiers, the page size and the tuple bodies from `pd_upper` to the
/// end of the page.
pub struct PageView {
    pub header: PageHeaderData,
    pub items: Seq<ItemIdData>,
    pub page_size: nat,
    pub body: Seq<u8>,
}

/// The item identifiers stored from byte 24 of `img` on.
pub open spec fn decode_items(img: Seq<u8>, count: nat) -> Seq<ItemIdData> {
    Seq::new(
        count,
        |k: int| ItemIdData { bits: spec_u32_from_le_bytes(img.subrange(24 + 4 * k, 28 + 4 * k)) },
    )
}

/// The one-based numbers of the dead slots among the first `n`, ascending.
pub open spec fn dead_upto(items: Seq<ItemIdData>, n: nat) -> Seq<u16>
    decreases n,
{
    if n == 0 {
        Seq::empty()
    } else if items[n - 1].spec_is_dead() {
        dead_upto(items, (n - 1) as nat).push(n as u16)
    } else {
        dead_upto(items, (n - 1) as nat)
    }
}

/// The lowest start of a non-empty live body among the first `n` slots, or
/// `top` where there is none.
pub open spec fn lowest_body(items: Seq<ItemIdData>, n: nat, top: nat) -> nat
    decreases n,
{
    if n == 0 {
        top
    } else {
        let rest = lowest_body(items, (n - 1) as nat, top);
        let it = items[n - 1];
        if it.spec_is_used() && it.spec_length() > 0 && it.spec_offset() < rest {
            it.spec_offset() as nat
        } else {
            rest
        }
    }
}

impl PageView {
    /// An empty page of `page_size` bytes.
    pub open spec fn empty(page_size: nat) -> PageView {
        PageView {
            header: PageHeaderData::empty(page_size as u16),
            items: Seq::empty(),
            page_size,
            body: Seq::empty(),
        }
    }

    /// A live body lies within the page, and a non-empty one at or above
    /// `pd_upper`.
    pub open spec fn item_in_bounds(&self, it: ItemIdData) -> bool {
        it.spec_is_used() ==> {
            &&& it.spec_offset() + it.spec_length() <= self.page_size
            &&& it.spec_length() > 0 ==> self.header.pd_upper <= it.spec_offset()
        }
    }

    /// The layout invariants of a page.
    pub open spec fn wf(&self) -> bool {
        &&& PAGE_HEADER_SIZE <= self.page_size <= MAX_PAGE_SIZE
        &&& self.header.pd_lower == PAGE_HEADER_SIZE + ITEM_ID_SIZE * self.items.len()
        &&& self.header.pd_lower <= self.header.pd_upper
        &&& self.header.pd_upper <= self.page_size
        &&& self.header.pd_special == self.page_size
        &&& self.body.len() == self.page_size - self.header.pd_upper
        &&& forall|i: int| 0 <= i < self.items.len() ==>
            self.item_in_bounds(#[trigger] self.items[i])
    }

    pub open spec fn free_space(&self) -> int {
        self.header.pd_upper - self.header.pd_lower
    }

    /// The bytes that an identifier points at.
    pub open spec fn body_of(&self, it: ItemIdData) -> Seq<u8> {
        if it.spec_length() == 0 {
            Seq::empty()
        } else {
            self.body.subrange(
                it.spec_offset() - self.header.pd_upper,
                it.spec_offset() + it.spec_length() - self.header.pd_upper,
            )
        }
    }

    /// The body of the item with the one-based number `offset`, if that slot
    /// exists and is in use.
    pub open spec fn item(&self, offset: u16) -> Option<Seq<u8>> {
        if 1 <= offset <= self.items.len() && self.items[offset - 1].spec_is_used() {
            Some(self.body_of(self.items[offset - 1]))
        } else {
            None
        }
    }

    /// Whether `bytes` and one more item identifier fit into the free space.
    pub open spec fn fits(&self, bytes: Seq<u8>) -> bool {
        self.free_space() >= bytes.len() + ITEM_ID_SIZE
    }

    /// The page after `bytes` were added as a new item: the body grows
    /// downward by `bytes`, a live identifier for it is appended, and the page
    /// is flagged full exactly if fewer than 32 free bytes remain.
    pub open spec fn with_item(&self, bytes: Seq<u8>) -> PageView {
        let upper = (self.header.pd_upper - bytes.len()) as u16;
        let lower = (self.header.pd_lower + ITEM_ID_SIZE) as u16;
        PageView {
            header: PageHeaderData { pd_lower: lower, pd_upper: upper, ..self.header }.with_flag(
                PD_PAGE_FULL,
                upper - lower < PAGE_FULL_THRESHOLD,
            ),
            items: self.items.push(
                ItemIdData { bits: pack_item_id(upper, bytes.len() as u16, LP_USED) },
            ),
            page_size: self.page_size,
            body: bytes + self.body,
        }
    }

    /// The page after the slot `offset` was marked dead.
    pub open spec fn with_dead(&self, offset: u16) -> PageView {
        PageView {
            header: self.header.with_flag(PD_HAS_FREE_LINES, true),
            items: self.items.update(offset - 1, ItemIdData::dead()),
            ..*self
        }
    }

    /// The page after the bytes of the item `offset` were replaced by `bytes`
    /// of the same length.
    pub open spec fn with_body(&self, offset: u16, bytes: Seq<u8>) -> PageView {
        let it = self.items[offset - 1];
        PageView {
            body: if it.spec_length() == 0 {
                self.body
            } else {
                overlay(self.body, it.spec_offset() - self.header.pd_upper, bytes)
            },
            ..*self
        }
    }

    /// The page after the space below the lowest live body was given back:
    /// `pd_upper` rises to that body, or to the end of the page where no live
    /// body is left.
    pub open spec fn reclaimed(&self) -> PageView {
        let upper = lowest_body(self.items, self.items.len(), self.page_size);
        PageView {
            header: PageHeaderData { pd_upper: upper as u16, ..self.header }.with_flag(
                PD_PAGE_FULL,
                upper - self.header.pd_lower < PAGE_FULL_THRESHOLD,
            ),
            body: self.body.subrange(upper - self.header.pd_upper, self.body.len() as int),
            ..*self
        }
    }

    pub open spec fn dead_items(&self) -> Seq<u16> {
        dead_upto(self.items, self.items.len())
    }

    /// The byte-exact image of the page: the header, the item identifiers in
    /// little-endian order, zeros over the free space, then the bodies.
    pub open spec fn image(&self) -> Seq<u8> {
        Seq::new(
            self.page_size,
            |i: int|
                if i < 24 {
                    self.header.encode()[i]
                } else if i < self.header.pd_lower {
                    spec_u32_to_le_bytes(self.items[(i - 24) / 4].bits)[(i - 24) % 4]
                } else if i < self.header.pd_upper {
                    0u8
                } else {
                    self.body[i - self.header.pd_upper]
                },
        )
    }

    /// What an image holds, read without any check.
    pub open spec fn parse(img: Seq<u8>) -> PageView {
        let header = PageHeaderData::decode(img);
        let count = if header.pd_lower >= 24 {
            (header.pd_lower - 24) / 4
        } else {
            0
        };
        PageView {
            header,
            items: decode_items(img, count as nat),
            page_size: img.len(),
            body: img.subrange(header.pd_upper as int, img.len() as int),
        }
    }

    /// Whether an image is a page: at least a default page long, and with all
    /// layout invariants in place.
    pub open spec fn valid_image(img: Seq<u8>) -> bool {
        img.len() >= BLCKSZ && Self::parse(img).wf()
    }

    /// A page image holds its encoded header in its first 24 bytes.
    pub proof fn lemma_image_header(&self)
        requires
            self.wf(),
        ensures
            self.image().len() == self.page_size,
            self.image().subrange(0, 24) == self.header.encode(),
    {
        self.header.lemma_decode_encode(Seq::empty());
        assert(self.image().subrange(0, 24) =~= self.header.encode());
    }

    /// Reading back the image of a page gives the page: the round trip of
    /// serialization holds for every page that keeps the layout invariants
    /// and is at least a default page long.
    pub proof fn lemma_parse_image(&self)
        requires
            self.wf(),
            self.page_size >= BLCKSZ,
        ensures
            Self::valid_image(self.image()),
            Self::parse(self.image()) == *self,
    {
        let img = self.image();
        self.lemma_image_header();
        self.header.lemma_decode_encode(img.subrange(24, img.len() as int));
        assert(img =~= self.header.encode() + img.subrange(24, img.len() as int));
        let p = Self::parse(img);
        assert(p.header == self.header);
        lemma_auto_spec_u32_to_from_le_bytes();
        assert forall|k: int| 0 <= k < self.items.len() implies p.items[k] == self.items[k] by {
            assert(img.subrange(24 + 4 * k, 28 + 4 * k) =~= spec_u32_to_le_bytes(
                self.items[k].bits,
            ));
        }
        assert(p.items =~= self.items);
        assert(p.body =~= self.body);
    }

    /// Adding an item that fits keeps the layout invariants, makes the new
    /// item readable under the next slot number, and leaves every other item
    /// as it was.
    pub proof fn lemma_with_item(&self, bytes: Seq<u8>)
        requires
            self.wf(),
            self.fits(bytes),
        ensures
            self.with_item(bytes).wf(),
            self.with_item(bytes).item((self.items.len() + 1) as u16) == Some(bytes),
            forall|k: u16|
                1 <= k <= self.items.len() ==> #[trigger] self.with_item(bytes).item(k)
                    == self.item(k),
            self.with_item(bytes).free_space() == self.free_space() - bytes.len() - 4,
    {
        let next = self.with_item(bytes);
        let upper = (self.header.pd_upper - bytes.len()) as u16;
        let len = bytes.len() as u16;
        let fresh = ItemIdData { bits: pack_item_id(upper, len, LP_USED) };
        lemma_pack_item_id(upper, len, LP_USED);
        lemma_page_flags_disjoint();
        assert(next.items[self.items.len() as int] == fresh);
        assert(fresh.spec_length() == len);
        assert(fresh.spec_is_used());
        assert forall|i: int| 0 <= i < next.items.len() implies next.item_in_bounds(
            #[trigger] next.items[i],
        ) by {
            if i < self.items.len() {
                assert(next.items[i] == self.items[i]);
                assert(self.item_in_bounds(self.items[i]));
            }
        }
        assert(next.body_of(fresh) =~= bytes);
        assert forall|k: u16| 1 <= k <= self.items.len() implies #[trigger] next.item(k)
            == self.item(k) by {
            let it = self.items[k - 1];
            assert(next.items[k - 1] == it);
            assert(self.item_in_bounds(it));
            if it.spec_is_used() {
                assert(next.body_of(it) =~= self.body_of(it));
            }
        }
    }

    /// Marking a slot dead keeps the layout invariants and touches no other
    /// item.
    pub proof fn lemma_with_dead(&self, offset: u16)
        requires
            self.wf(),
            1 <= offset <= self.items.len(),
        ensures
            self.with_dead(offset).wf(),
            self.with_dead(offset).item(offset) is None,
            forall|k: u16| k != offset ==>
                #[trigger] self.with_dead(offset).item(k) == self.item(k),
            self.with_dead(offset).free_space() == self.free_space(),
    {
        let next = self.with_dead(offset);
        assert(ItemIdData::dead().spec_flags() == LP_DEAD) by (bit_vector);
        assert forall|i: int| 0 <= i < next.items.len() implies next.item_in_bounds(
            #[trigger] next.items[i],
        ) by {
            if i != offset - 1 {
                assert(self.item_in_bounds(self.items[i]));
            }
        }
    }

    /// Overwriting a non-empty live body with bytes of the same length keeps
    /// the layout invariants and makes those bytes the item.
    pub proof fn lemma_with_body(&self, offset: u16, bytes: Seq<u8>)
        requires
            self.wf(),
            self.item(offset) is Some,
            bytes.len() == self.item(offset).unwrap().len(),
        ensures
            self.with_body(offset, bytes).wf(),
            self.with_body(offset, bytes).item(offset) == Some(bytes),
            self.with_body(offset, bytes).free_space() == self.free_space(),
    {
        let next = self.with_body(offset, bytes);
        let it = self.items[offset - 1];
        assert(self.item_in_bounds(it));
        assert forall|i: int| 0 <= i < next.items.len() implies next.item_in_bounds(
            #[trigger] next.items[i],
        ) by {
            assert(self.item_in_bounds(self.items[i]));
        }
        assert(next.body_of(it) =~= bytes);
    }

    /// Overwriting one item leaves alone every item whose body shares no
    /// byte with it.
    pub proof fn lemma_with_body_other(&self, offset: u16, bytes: Seq<u8>, other: u16)
        requires
            self.wf(),
            self.item(offset) is Some,
            bytes.len() == self.item(offset).unwrap().len(),
            self.item(other) is Some,
            ({
                let a = self.items[offset - 1];
                let b = self.items[other - 1];
                a.spec_length() == 0 || b.spec_length() == 0 || a.spec_offset() + a.spec_length()
                    <= b.spec_offset() || b.spec_offset() + b.spec_length() <= a.spec_offset()
            }),
        ensures
            self.with_body(offset, bytes).item(other) == self.item(other),
    {
        let next = self.with_body(offset, bytes);
        let a = self.items[offset - 1];
        let b = self.items[other - 1];
        assert(self.item_in_bounds(a));
        assert(self.item_in_bounds(b));
        assert(next.body_of(b) =~= self.body_of(b));
    }

    /// No two live items share a byte of their bodies.
    pub open spec fn bodies_apart(&self) -> bool {
        forall|i: int, j: int|
            0 <= i < self.items.len() && 0 <= j < self.items.len() && i != j ==> apart(
                #[trigger] self.items[i],
                #[trigger] self.items[j],
            )
    }

    /// An item that is added lies below every body of the page, so it
    /// shares no byte with another.
    pub proof fn lemma_with_item_apart(&self, bytes: Seq<u8>)
        requires
            self.wf(),
            self.fits(bytes),
            self.bodies_apart(),
        ensures
            self.with_item(bytes).bodies_apart(),
    {
        let next = self.with_item(bytes);
        let upper = (self.header.pd_upper - bytes.len()) as u16;
        let len = bytes.len() as u16;
        lemma_pack_item_id(upper, len, LP_USED);
        let fresh = next.items[self.items.len() as int];
        assert forall|i: int, j: int|
            0 <= i < next.items.len() && 0 <= j < next.items.len() && i != j implies apart(
            #[trigger] next.items[i],
            #[trigger] next.items[j],
        ) by {
            if i < self.items.len() {
                assert(next.items[i] == self.items[i]);
                assert(self.item_in_bounds(self.items[i]));
            }
            if j < self.items.len() {
                assert(next.items[j] == self.items[j]);
                assert(self.item_in_bounds(self.items[j]));
            }
            if i < self.items.len() && j < self.items.len() {
                assert(apart(self.items[i], self.items[j]));
            }
        }
    }

    /// Marking a slot dead leaves the live items apart.
    pub proof fn lemma_with_dead_apart(&self, offset: u16)
        requires
            1 <= offset <= self.items.len(),
            self.bodies_apart(),
        ensures
            self.with_dead(offset).bodies_apart(),
    {
        let next = self.with_dead(offset);
        assert(ItemIdData::dead().spec_flags() == LP_DEAD) by (bit_vector);
        assert forall|i: int, j: int|
            0 <= i < next.items.len() && 0 <= j < next.items.len() && i != j implies apart(
            #[trigger] next.items[i],
            #[trigger] next.items[j],
        ) by {
            if i != offset - 1 && j != offset - 1 {
                assert(apart(self.items[i], self.items[j]));
            }
        }
    }

    /// On a page whose live items lie apart, overwriting one item leaves
    /// every other item as it was.
    pub proof fn lemma_with_body_others(&self, offset: u16, bytes: Seq<u8>)
        requires
            self.wf(),
            self.bodies_apart(),
            self.item(offset) is Some,
            bytes.len() == self.item(offset).unwrap().len(),
        ensures
            forall|other: u16|
                other != offset ==> #[trigger] self.with_body(offset, bytes).item(other)
                    == self.item(other),
    {
        assert forall|other: u16| other != offset implies #[trigger] self.with_body(
            offset,
            bytes,
        ).item(other) == self.item(other) by {
            if self.item(other) is Some {
                assert(apart(self.items[offset - 1], self.items[other - 1]));
                self.lemma_with_body_other(offset, bytes, other);
            }
        }
    }

    /// The lowest live body lies between `pd_upper` and the end of the page,
    /// and no non-empty live body starts below it.
    pub proof fn lemma_lowest_body(&self, n: nat)
        requires
            self.wf(),
            n <= self.items.len(),
        ensures
            self.header.pd_upper <= lowest_body(self.items, n, self.page_size) <= self.page_size,
            forall|i: int|
                0 <= i < n && (#[trigger] self.items[i]).spec_is_used() && self.items[i].spec_length()
                    > 0 ==> lowest_body(self.items, n, self.page_size)
                    <= self.items[i].spec_offset(),
        decreases n,
    {
        if n > 0 {
            self.lemma_lowest_body((n - 1) as nat);
            assert(self.item_in_bounds(self.items[n - 1]));
        }
    }

    /// Giving back the space below the lowest live body keeps the layout
    /// invariants and every item, and never shrinks the free space.
    pub proof fn lemma_reclaimed(&self)
        requires
            self.wf(),
        ensures
            self.reclaimed().wf(),
            forall|k: u16| #[trigger] self.reclaimed().item(k) == self.item(k),
            self.reclaimed().free_space() >= self.free_space(),
            self.reclaimed().items == self.items,
    {
        let next = self.reclaimed();
        self.lemma_lowest_body(self.items.len());
        lemma_page_flags_disjoint();
        assert forall|i: int| 0 <= i < next.items.len() implies next.item_in_bounds(
            #[trigger] next.items[i],
        ) by {
            assert(self.item_in_bounds(self.items[i]));
        }
        assert forall|k: u16| #[trigger] next.item(k) == self.item(k) by {
            if 1 <= k <= self.items.len() {
                let it = self.items[k - 1];
                assert(self.item_in_bounds(it));
                if it.spec_is_used() {
                    assert(next.body_of(it) =~= self.body_of(it));
                }
            }
        }
    }
}

/// A page in memory. `data` is the page-sized buffer that holds the tuple
/// bodies at their offsets; the header and the item identifiers are kept
/// decoded beside it.
#[derive(Debug, Clone)]
pub struct Page {
    pub header: PageHeaderData,
    pub item_id_data: Vec<ItemIdData>,
    pub data: Vec<u8>,
    pub page_size: usize,
}

impl View for Page {
    type V = PageView;

    open spec fn view(&self) -> PageView {
        PageView {
            header: self.header,
            items: self.item_id_data@,
            page_size: self.page_size as nat,
            body: self.data@.subrange(self.header.pd_upper as int, self.page_size as int),
        }
    }
}

impl Page {
    /// The buffer is as long as the page, and the layout invariants hold.
    pub open spec fn wf(&self) -> bool {
        &&& self.data@.len() == self.page_size
        &&& self@.wf()
    }

    /// An empty page: no items, all space between the header and the end of
    /// the page free, no flag set.
    pub fn new(page_size: usize) -> (r: Self)
        requires
            PAGE_HEADER_SIZE <= page_size <= MAX_PAGE_SIZE,
        ensures
            r.wf(),
            r@ == PageView::empty(page_size as nat),
            r@.free_space() == page_size - PAGE_HEADER_SIZE,
    {
        let r = Self {
            header: PageHeaderData::new(page_size),
            item_id_data: Vec::new(),
            data: zeroed(page_size),
            page_size,
        };
        assert(r@.body =~= Seq::<u8>::empty());
        assert(r@.items =~= Seq::<ItemIdData>::empty());
        r
    }

    /// Reads a page from its image and checks it: the image is at least a
    /// default page long and every layout invariant holds. The buffer becomes
    /// the page's own.
    pub fn from_raw(data: Vec<u8>) -> (r: Result<Self, HeapError>)
        ensures
            match r {
                Ok(p) => {
                    &&& PageView::valid_image(data@)
                    &&& p.wf()
                    &&& p@ == PageView::parse(data@)
                    &&& p.data@ == data@
                },
                Err(e) => !PageView::valid_image(data@) && e is InvalidPage,
            },
    {
        let page_size = data.len();
        if page_size < BLCKSZ {
            return Err(HeapError::InvalidPage("page size too small".to_string()));
        }
        if page_size > MAX_PAGE_SIZE {
            return Err(HeapError::InvalidPage("invalid page layout".to_string()));
        }
        let header = match PageHeaderData::deserialize(slice_subrange(data.as_slice(), 0, 24)) {
            Ok(h) => h,
            Err(e) => {
                return Err(e);
            },
        };
        proof {
            let head = data@.subrange(0, 24);
            assert(head.subrange(0, 8) =~= data@.subrange(0, 8));
            assert(head.subrange(8, 10) =~= data@.subrange(8, 10));
            assert(head.subrange(10, 12) =~= data@.subrange(10, 12));
            assert(head.subrange(12, 14) =~= data@.subrange(12, 14));
            assert(head.subrange(14, 16) =~= data@.subrange(14, 16));
            assert(head.subrange(16, 18) =~= data@.subrange(16, 18));
            assert(head.subrange(18, 20) =~= data@.subrange(18, 20));
            assert(head.subrange(20, 24) =~= data@.subrange(20, 24));
            assert(header == PageHeaderData::decode(data@));
        }
        let lower = header.pd_lower as usize;
        let upper = header.pd_upper as usize;
        if lower < 24 || upper > page_size || lower > upper {
            return Err(HeapError::InvalidPage("invalid page layout".to_string()));
        }
        if header.pd_special as usize != page_size || (lower - 24) % 4 != 0 {
            return Err(HeapError::InvalidPage("invalid page layout".to_string()));
        }
        let item_id_count = (lower - 24) / 4;
        let ghost parsed = PageView::parse(data@);
        let mut item_id_data: Vec<ItemIdData> = Vec::new();
        let mut i: usize = 0;
        while i < item_id_count
            invariant
                i <= item_id_count,
                item_id_count == (lower - 24) / 4,
                24 <= lower <= upper <= page_size,
                page_size == data@.len(),
                page_size <= MAX_PAGE_SIZE,
                parsed == PageView::parse(data@),
                parsed.header == header,
                parsed.items.len() == item_id_count,
                lower == header.pd_lower,
                upper == header.pd_upper,
                item_id_data@ == parsed.items.subrange(0, i as int),
                forall|k: int| 0 <= k < i ==> parsed.item_in_bounds(#[trigger] parsed.items[k]),
            decreases item_id_count - i,
        {
            let at = 24 + i * 4;
            let bits = read_u32_le(slice_subrange(data.as_slice(), at, at + 4));
            let item = ItemIdData { bits };
            proof {
                assert(data@.subrange(at as int, at + 4).subrange(0, 4) =~= data@.subrange(
                    24 + 4 * i,
                    28 + 4 * i,
                ));
                assert(item == parsed.items[i as int]);
            }
            if item.is_used() {
                let off = item.offset() as usize;
                let len = item.length() as usize;
                if off + len > page_size || (len > 0 && off < upper) {
                    proof {
                        assert(!parsed.item_in_bounds(parsed.items[i as int]));
                    }
                    return Err(HeapError::InvalidPage("invalid page layout".to_string()));
                }
            }
            item_id_data.push(item);
            assert(item_id_data@ =~= parsed.items.subrange(0, i + 1));
            i += 1;
        }
        assert(item_id_data@ =~= parsed.items);
        Ok(Self { header, item_id_data, data, page_size })
    }

    /// Reads a page from a copy of its image, and checks it as `from_raw`
    /// does.
    pub fn deserialize(image: &[u8]) -> (r: Result<Self, HeapError>)
        ensures
            match r {
                Ok(p) => {
                    &&& PageView::valid_image(image@)
                    &&& p.wf()
                    &&& p@ == PageView::parse(image@)
                },
                Err(e) => !PageView::valid_image(image@) && e is InvalidPage,
            },
    {
        let data = copy_range(image, 0, image.len());
        assert(image@.subrange(0, image@.len() as int) =~= image@);
        Self::from_raw(data)
    }

    /// The body of the item with the one-based number `offset`, if that slot
    /// exists and is in use.
    pub fn get_item(&self, offset: u16) -> (r: Option<&[u8]>)
        requires
            self.wf(),
        ensures
            match r {
                Some(bytes) => self@.item(offset) == Some(bytes@),
                None => self@.item(offset) is None,
            },
    {
        if offset == 0 {
            return None;
        }
        let offset_idx = (offset - 1) as usize;
        if offset_idx >= self.item_id_data.len() {
            return None;
        }
        let item_id = self.item_id_data[offset_idx];
        if !item_id.is_used() {
            return None;
        }
        let off = item_id.offset() as usize;
        let len = item_id.length() as usize;
        proof {
            assert(self@.item_in_bounds(self@.items[offset_idx as int]));
        }
        if off + len > self.page_size {
            return None;
        }
        let bytes = slice_subrange(self.data.as_slice(), off, off + len);
        assert(bytes@ =~= self@.body_of(item_id));
        Some(bytes)
    }

    /// The body of the item `offset` as a span that can be written in place.
    /// The span has exactly the stored length; what the caller writes into it
    /// becomes the item.
    pub fn get_item_mut(&mut self, offset: u16) -> (r: Option<&mut [u8]>)
        requires
            old(self).wf(),
        ensures
            match r {
                Some(span) => {
                    &&& old(self)@.item(offset) == Some(span@)
                    &&& final(span)@.len() == span@.len()
                    &&& final(self)@.header == old(self)@.header
                    &&& final(self)@.items == old(self)@.items
                    &&& final(self)@.page_size == old(self)@.page_size
                    &&& final(self)@.body =~= old(self)@.with_body(offset, final(span)@).body
                    &&& final(self).data@.len() == old(self).data@.len()
                    &&& final(self).wf()
                },
                None => old(self)@.item(offset) is None && *final(self) == *old(self),
            },
    {
        if offset == 0 {
            return None;
        }
        let offset_idx = (offset - 1) as usize;
        if offset_idx >= self.item_id_data.len() {
            return None;
        }
        let item_id = self.item_id_data[offset_idx];
        if !item_id.is_used() {
            return None;
        }
        let off = item_id.offset() as usize;
        let len = item_id.length() as usize;
        if off + len > self.page_size {
            return None;
        }
        proof {
            assert(self@.item_in_bounds(self@.items[offset_idx as int]));
        }
        Some(span_mut(&mut self.data, off, off + len))
    }

    /// Adds `data` as a new item and returns its one-based slot number.
    /// Fails with `NoFreeSpace`, leaving the page as it was, when the free
    /// space cannot take the bytes and one more item identifier.
    pub fn add_item(&mut self, data: &[u8]) -> (r: Result<u16, HeapError>)
        requires
            old(self).wf(),
        ensures
            final(self).wf(),
            match r {
                Ok(n) => {
                    &&& old(self)@.fits(data@)
                    &&& n == old(self)@.items.len() + 1
                    &&& final(self)@ == old(self)@.with_item(data@)
                    &&& final(self)@.item(n) == Some(data@)
                    &&& forall|k: u16|
                        1 <= k < n ==> #[trigger] final(self)@.item(k) == old(self)@.item(k)
                    &&& final(self)@.free_space() == old(self)@.free_space() - data@.len() - 4
                },
                Err(e) => !old(self)@.fits(data@) && e is NoFreeSpace && *final(self) == *old(self),
            },
    {
        let free = self.header.free_space(self.page_size);
        if free < 4 || data.len() > free - 4 {
            return Err(HeapError::NoFreeSpace);
        }
        proof {
            self@.lemma_with_item(data@);
        }
        let item_len = data.len() as u16;
        let new_offset = self.header.pd_upper - item_len;
        self.header.pd_upper = new_offset;
        let new_item_id_idx = self.item_id_data.len() as u16;
        self.header.pd_lower = self.header.pd_lower + 4;
        put_bytes(&mut self.data, new_offset as usize, data);
        let mut item_id = ItemIdData::new();
        item_id.set(new_offset, item_len, LP_USED);
        self.item_id_data.push(item_id);
        let full = self.header.free_space(self.page_size) < PAGE_FULL_THRESHOLD;
        self.header.set_page_full(full);
        assert(self@.body =~= old(self)@.with_item(data@).body);
        assert(self@.items =~= old(self)@.with_item(data@).items);
        Ok(new_item_id_idx + 1)
    }

    /// Marks the slot `offset` dead. The body stays where it is and
    /// `pd_upper` does not move. Fails with `InvalidTuple` when there is no
    /// such slot.
    pub fn remove_item(&mut self, offset: u16) -> (r: Result<(), HeapError>)
        requires
            old(self).wf(),
        ensures
            final(self).wf(),
            match r {
                Ok(_) => {
                    &&& 1 <= offset <= old(self)@.items.len()
                    &&& final(self)@ == old(self)@.with_dead(offset)
                    &&& final(self)@.item(offset) is None
                    &&& forall|k: u16|
                        k != offset ==> #[trigger] final(self)@.item(k) == old(self)@.item(k)
                },
                Err(e) => {
                    &&& !(1 <= offset <= old(self)@.items.len())
                    &&& e is InvalidTuple
                    &&& *final(self) == *old(self)
                },
            },
    {
        if offset == 0 {
            return Err(HeapError::InvalidTuple("invalid offset".to_string()));
        }
        let offset_idx = (offset - 1) as usize;
        if offset_idx >= self.item_id_data.len() {
            return Err(HeapError::InvalidTuple("invalid offset".to_string()));
        }
        proof {
            self@.lemma_with_dead(offset);
        }
        self.item_id_data[offset_idx] = ItemIdData { bits: 0x8000_0000 };
        self.header.set_has_free_lines(true);
        assert(self@.items =~= old(self)@.with_dead(offset).items);
        Ok(())
    }

    /// Gives back the space below the lowest live body: `pd_upper` rises to
    /// that body, or to the end of the page where no live body is left. No
    /// item changes, and the free space does not shrink.
    pub fn reclaim_space(&mut self)
        requires
            old(self).wf(),
        ensures
            final(self).wf(),
            final(self)@ == old(self)@.reclaimed(),
            forall|k: u16| #[trigger] final(self)@.item(k) == old(self)@.item(k),
            final(self)@.free_space() >= old(self)@.free_space(),
    {
        proof {
            self@.lemma_reclaimed();
            self@.lemma_lowest_body(self@.items.len());
        }
        let mut lowest: usize = self.page_size;
        let mut i: usize = 0;
        while i < self.item_id_data.len()
            invariant
                i <= self.item_id_data.len(),
                *self == *old(self),
                lowest == lowest_body(self@.items, i as nat, self.page_size as nat),
            decreases self.item_id_data.len() - i,
        {
            let item = self.item_id_data[i];
            if item.is_used() && item.length() > 0 && (item.offset() as usize) < lowest {
                lowest = item.offset() as usize;
            }
            i += 1;
        }
        self.header.pd_upper = lowest as u16;
        let full = self.header.free_space(self.page_size) < PAGE_FULL_THRESHOLD;
        self.header.set_page_full(full);
        assert(self@.body =~= old(self)@.reclaimed().body);
    }

    pub fn item_count(&self) -> (r: usize)
        ensures
            r == self@.items.len(),
    {
        self.item_id_data.len()
    }

    pub fn free_space(&self) -> (r: usize)
        requires
            self.wf(),
        ensures
            r == self@.free_space(),
    {
        self.header.free_space(self.page_size)
    }

    pub fn has_free_lines(&self) -> (r: bool)
        ensures
            r == self@.header.flag(PD_HAS_FREE_LINES),
    {
        self.header.has_free_lines()
    }

    /// The one-based numbers of the dead slots, ascending.
    pub fn dead_items(&self) -> (r: Vec<u16>)
        requires
            self.wf(),
        ensures
            r@ == self@.dead_items(),
    {
        let mut dead: Vec<u16> = Vec::new();
        let mut i: usize = 0;
        while i < self.item_id_data.len()
            invariant
                i <= self.item_id_data.len(),
                self.wf(),
                dead@ == dead_upto(self@.items, i as nat),
            decreases self.item_id_data.len() - i,
        {
            if self.item_id_data[i].is_dead() {
                dead.push((i + 1) as u16);
            }
            i += 1;
        }
        dead
    }

    /// The byte-exact image of the page.
    pub fn serialize(&self) -> (r: Vec<u8>)
        requires
            self.wf(),
        ensures
            r@ == self@.image(),
            r@.len() == self.page_size,
    {
        let mut buf = zeroed(self.page_size);
        let head = self.header.to_bytes();
        put_bytes(&mut buf, 0, head.as_slice());
        let ghost image = self@.image();
        let mut i: usize = 0;
        while i < self.item_id_data.len()
            invariant
                i <= self.item_id_data.len(),
                self.wf(),
                image == self@.image(),
                buf@.len() == self.page_size,
                forall|j: int| 0 <= j < 24 + 4 * i ==> buf@[j] == image[j],
                forall|j: int| 24 + 4 * i <= j < self.page_size ==> buf@[j] == 0u8,
            decreases self.item_id_data.len() - i,
        {
            let at = 24 + i * 4;
            let bits = u32_le(self.item_id_data[i].bits);
            proof {
                lemma_auto_spec_u32_to_from_le_bytes();
            }
            put_bytes(&mut buf, at, &bits);
            proof {
                assert forall|j: int| 0 <= j < 24 + 4 * (i + 1) implies buf@[j] == image[j] by {
                    if j >= at {
                        assert((j - 24) / 4 == i);
                        assert((j - 24) % 4 == j - at);
                    }
                }
            }
            i += 1;
        }
        let data_start = self.header.pd_upper as usize;
        let body = slice_subrange(self.data.as_slice(), data_start, self.page_size);
        put_bytes(&mut buf, data_start, body);
        assert(buf@ =~= image);
        buf
    }

    /// Whether the page keeps the basic layout invariants: `pd_lower` at or
    /// past the header, `pd_upper` within the page and not below `pd_lower`,
    /// and no special area.
    pub fn is_valid(&self) -> (r: bool)
        ensures
            r == {
                &&& self.header.pd_lower >= PAGE_HEADER_SIZE
                &&& self.header.pd_upper <= self.page_size
                &&& self.header.pd_lower <= self.header.pd_upper
                &&& self.header.pd_special == self.page_size
            },
            self.wf() ==> r,
    {
        self.header.pd_lower >= 24 && self.header.pd_upper as usize <= self.page_size
            && self.header.pd_lower <= self.header.pd_upper && self.header.pd_special as usize
            == self.page_size
    }
}

impl Default for Page {
    fn default() -> (r: Self)
        ensures
            r.wf(),
            r@ == PageView::empty(BLCKSZ as nat),
    {
        Self::new(BLCKSZ)
    }
}

} // verus!
