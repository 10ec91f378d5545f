//! The tuple: a fixed header with the transaction metadata, an optional null
//! bitmap, and the payload at an 8-byte boundary.

use crate::codec::{
    align8, align8_up, copy_range, lemma_byte_bit, lemma_flag_update, overlay, put_bytes,
    read_u16_le, read_u32_le, u16_le, u32_le, zeroed,
};
use crate::constants::{
    HEAP_FIXED_HEADER_SIZE, HEAP_HASNULL, HEAP_HASVARLENA, HEAP_KEYS_UPDATED, HEAP_NATTS_MASK,
    HEAP_XMAX_COMMITTED, HEAP_XMAX_INVALID, HEAP_XMAX_IS_LOCKED_ONLY, HEAP_XMIN_COMMITTED,
    HEAP_XMIN_INVALID, INVALID_TRANSACTION_ID,
};
use crate::error::HeapError;
use crate::types::{CommandId, ItemPointerData, TransactionId};
use vstd::bytes::{
    lemma_auto_spec_u16_to_from_le_bytes, lemma_auto_spec_u32_to_from_le_bytes,
    spec_u16_from_le_bytes, spec_u16_to_le_bytes, spec_u32_from_le_bytes, spec_u32_to_le_bytes,
};
use vstd::prelude::*;
use vstd::slice::slice_subrange;

verus! {

/// No two flags of `t_infomask` that the engine reads share a bit.
pub proof fn lemma_infomask_flags_disjoint()
    by (bit_vector)
    ensures
        HEAP_HASNULL & HEAP_XMIN_COMMITTED == 0,
        HEAP_HASNULL & HEAP_XMIN_INVALID == 0,
        HEAP_HASNULL & HEAP_XMAX_COMMITTED == 0,
        HEAP_HASNULL & HEAP_XMAX_INVALID == 0,
        HEAP_HASNULL & HEAP_XMAX_IS_LOCKED_ONLY == 0,
        HEAP_HASVARLENA & HEAP_XMIN_COMMITTED == 0,
        HEAP_HASVARLENA & HEAP_XMIN_INVALID == 0,
        HEAP_HASVARLENA & HEAP_XMAX_COMMITTED == 0,
        HEAP_HASVARLENA & HEAP_XMAX_INVALID == 0,
        HEAP_HASVARLENA & HEAP_XMAX_IS_LOCKED_ONLY == 0,
        HEAP_XMIN_COMMITTED & HEAP_XMIN_INVALID == 0,
        HEAP_XMIN_COMMITTED & HEAP_XMAX_COMMITTED == 0,
        HEAP_XMIN_COMMITTED & HEAP_XMAX_INVALID == 0,
        HEAP_XMIN_COMMITTED & HEAP_XMAX_IS_LOCKED_ONLY == 0,
        HEAP_XMIN_INVALID & HEAP_XMIN_COMMITTED == 0,
        HEAP_XMIN_INVALID & HEAP_XMAX_COMMITTED == 0,
        HEAP_XMIN_INVALID & HEAP_XMAX_INVALID == 0,
        HEAP_XMIN_INVALID & HEAP_XMAX_IS_LOCKED_ONLY == 0,
        HEAP_XMAX_COMMITTED & HEAP_XMIN_COMMITTED == 0,
        HEAP_XMAX_COMMITTED & HEAP_XMIN_INVALID == 0,
        HEAP_XMAX_COMMITTED & HEAP_XMAX_INVALID == 0,
        HEAP_XMAX_COMMITTED & HEAP_XMAX_IS_LOCKED_ONLY == 0,
        HEAP_XMAX_INVALID & HEAP_XMIN_COMMITTED == 0,
        HEAP_XMAX_INVALID & HEAP_XMIN_INVALID == 0,
        HEAP_XMAX_INVALID & HEAP_XMAX_COMMITTED == 0,
        HEAP_XMAX_INVALID & HEAP_XMAX_IS_LOCKED_ONLY == 0,
        HEAP_XMAX_IS_LOCKED_ONLY & HEAP_XMIN_COMMITTED == 0,
        HEAP_XMAX_IS_LOCKED_ONLY & HEAP_XMIN_INVALID == 0,
        HEAP_XMAX_IS_LOCKED_ONLY & HEAP_XMAX_COMMITTED == 0,
        HEAP_XMAX_IS_LOCKED_ONLY & HEAP_XMAX_INVALID == 0,
        HEAP_NATTS_MASK & HEAP_KEYS_UPDATED == 0,
{
}

/// The fixed header of a tuple.
#[derive(Debug, Clone, Copy)]
pub struct HeapTupleHeaderData {
    pub t_xmin: u32,
    pub t_xmax: u32,
    pub t_cid: u32,
    pub t_ctid: ItemPointerData,
    pub t_infomask2: u16,
    pub t_infomask: u16,
    pub t_hoff: u8,
}

/// The length of the null bitmap of a tuple of `natts` attributes.
pub open spec fn bitmap_len(natts: u16) -> int {
    (natts + 7) / 8
}

/// The payload offset that the header records: the fixed header, the null
/// bitmap where there is one, rounded up to a multiple of eight, and cut to
/// the one byte the field has.
pub open spec fn hoff_of(natts: u16, has_null: bool) -> u8 {
    (align8(
        if has_null {
            HEAP_FIXED_HEADER_SIZE + bitmap_len(natts)
        } else {
            HEAP_FIXED_HEADER_SIZE as int
        },
    ) % 256) as u8
}

impl HeapTupleHeaderData {
    /// The header of a fresh tuple of `natts` attributes: no creator, no
    /// deleter, no flags.
    pub open spec fn fresh(natts: u16) -> HeapTupleHeaderData {
        HeapTupleHeaderData {
            t_xmin: INVALID_TRANSACTION_ID,
            t_xmax: INVALID_TRANSACTION_ID,
            t_cid: 0,
            t_ctid: ItemPointerData { block_number: 0, offset_number: 0 },
            t_infomask2: natts,
            t_infomask: 0,
            t_hoff: 24,
        }
    }

    pub fn new(natts: u16) -> (r: Self)
        ensures
            r == Self::fresh(natts),
    {
        let t_hoff = Self::compute_hoff(natts, false, false);
        Self {
            t_xmin: INVALID_TRANSACTION_ID,
            t_xmax: INVALID_TRANSACTION_ID,
            t_cid: 0,
            t_ctid: ItemPointerData::invalid(),
            t_infomask2: natts,
            t_infomask: 0,
            t_hoff,
        }
    }

    pub fn compute_hoff(natts: u16, has_null: bool, has_varlena: bool) -> (r: u8)
        ensures
            r == hoff_of(natts, has_null),
    {
        let mut off: usize = HEAP_FIXED_HEADER_SIZE;
        if has_null {
            off = off + (natts as usize + 7) / 8;
        }
        off = align8_up(off);
        (off % 256) as u8
    }

    /// Whether the bits of `bit` are set in `t_infomask`.
    pub open spec fn flag(&self, bit: u16) -> bool {
        self.t_infomask & bit != 0
    }

    /// This header with the bits of `bit` set or cleared in `t_infomask`.
    pub open spec fn with_flag(self, bit: u16, on: bool) -> HeapTupleHeaderData {
        HeapTupleHeaderData {
            t_infomask: if on {
                self.t_infomask | bit
            } else {
                self.t_infomask & !bit
            },
            ..self
        }
    }

    /// Two headers agree on every hint bit but `bit`.
    pub open spec fn hints_agree_except(&self, other: HeapTupleHeaderData, bit: u16) -> bool {
        &&& self.flag(HEAP_HASNULL) == other.flag(HEAP_HASNULL)
        &&& self.flag(HEAP_HASVARLENA) == other.flag(HEAP_HASVARLENA)
        &&& bit != HEAP_XMIN_COMMITTED ==> self.flag(HEAP_XMIN_COMMITTED) == other.flag(
            HEAP_XMIN_COMMITTED,
        )
        &&& bit != HEAP_XMIN_INVALID ==> self.flag(HEAP_XMIN_INVALID) == other.flag(
            HEAP_XMIN_INVALID,
        )
        &&& bit != HEAP_XMAX_COMMITTED ==> self.flag(HEAP_XMAX_COMMITTED) == other.flag(
            HEAP_XMAX_COMMITTED,
        )
        &&& bit != HEAP_XMAX_INVALID ==> self.flag(HEAP_XMAX_INVALID) == other.flag(
            HEAP_XMAX_INVALID,
        )
        &&& bit != HEAP_XMAX_IS_LOCKED_ONLY ==> self.flag(HEAP_XMAX_IS_LOCKED_ONLY) == other.flag(
            HEAP_XMAX_IS_LOCKED_ONLY,
        )
    }

    /// Setting or clearing one hint bit decides that bit and no other.
    pub proof fn lemma_with_flag(self, bit: u16, on: bool)
        requires
            bit == HEAP_XMIN_COMMITTED || bit == HEAP_XMIN_INVALID || bit == HEAP_XMAX_COMMITTED
                || bit == HEAP_XMAX_INVALID || bit == HEAP_XMAX_IS_LOCKED_ONLY,
        ensures
            self.with_flag(bit, on).flag(bit) == on,
            self.with_flag(bit, on).hints_agree_except(self, bit),
    {
        lemma_infomask_flags_disjoint();
        lemma_flag_update(self.t_infomask, bit, HEAP_HASNULL);
        lemma_flag_update(self.t_infomask, bit, HEAP_HASVARLENA);
        if bit != HEAP_XMIN_COMMITTED {
            lemma_flag_update(self.t_infomask, bit, HEAP_XMIN_COMMITTED);
        }
        if bit != HEAP_XMIN_INVALID {
            lemma_flag_update(self.t_infomask, bit, HEAP_XMIN_INVALID);
        }
        if bit != HEAP_XMAX_COMMITTED {
            lemma_flag_update(self.t_infomask, bit, HEAP_XMAX_COMMITTED);
        }
        if bit != HEAP_XMAX_INVALID {
            lemma_flag_update(self.t_infomask, bit, HEAP_XMAX_INVALID);
        }
        if bit != HEAP_XMAX_IS_LOCKED_ONLY {
            lemma_flag_update(self.t_infomask, bit, HEAP_XMAX_IS_LOCKED_ONLY);
        }
    }

    /// The attribute count: the low twelve bits of `t_infomask2`.
    pub open spec fn spec_natts(&self) -> u16 {
        self.t_infomask2 & HEAP_NATTS_MASK
    }

    pub fn natts(&self) -> (r: u16)
        ensures
            r == self.spec_natts(),
    {
        self.t_infomask2 & HEAP_NATTS_MASK
    }

    pub fn has_null(&self) -> (r: bool)
        ensures
            r == self.flag(HEAP_HASNULL),
    {
        (self.t_infomask & HEAP_HASNULL) != 0
    }

    pub fn has_varlena(&self) -> (r: bool)
        ensures
            r == self.flag(HEAP_HASVARLENA),
    {
        (self.t_infomask & HEAP_HASVARLENA) != 0
    }

    pub fn xmin_committed(&self) -> (r: bool)
        ensures
            r == self.flag(HEAP_XMIN_COMMITTED),
    {
        (self.t_infomask & HEAP_XMIN_COMMITTED) != 0
    }

    pub fn set_xmin_committed(&mut self, committed: bool)
        ensures
            *final(self) == old(self).with_flag(HEAP_XMIN_COMMITTED, committed),
            final(self).flag(HEAP_XMIN_COMMITTED) == committed,
            final(self).hints_agree_except(*old(self), HEAP_XMIN_COMMITTED),
    {
        proof {
            self.lemma_with_flag(HEAP_XMIN_COMMITTED, committed);
        }
        if committed {
            self.t_infomask = self.t_infomask | HEAP_XMIN_COMMITTED;
        } else {
            self.t_infomask = self.t_infomask & !HEAP_XMIN_COMMITTED;
        }
    }

    pub fn xmin_invalid(&self) -> (r: bool)
        ensures
            r == self.flag(HEAP_XMIN_INVALID),
    {
        (self.t_infomask & HEAP_XMIN_INVALID) != 0
    }

    pub fn set_xmin_invalid(&mut self, invalid: bool)
        ensures
            *final(self) == old(self).with_flag(HEAP_XMIN_INVALID, invalid),
            final(self).flag(HEAP_XMIN_INVALID) == invalid,
            final(self).hints_agree_except(*old(self), HEAP_XMIN_INVALID),
    {
        proof {
            self.lemma_with_flag(HEAP_XMIN_INVALID, invalid);
        }
        if invalid {
            self.t_infomask = self.t_infomask | HEAP_XMIN_INVALID;
        } else {
            self.t_infomask = self.t_infomask & !HEAP_XMIN_INVALID;
        }
    }

    pub fn xmax_committed(&self) -> (r: bool)
        ensures
            r == self.flag(HEAP_XMAX_COMMITTED),
    {
        (self.t_infomask & HEAP_XMAX_COMMITTED) != 0
    }

    pub fn set_xmax_committed(&mut self, committed: bool)
        ensures
            *final(self) == old(self).with_flag(HEAP_XMAX_COMMITTED, committed),
            final(self).flag(HEAP_XMAX_COMMITTED) == committed,
            final(self).hints_agree_except(*old(self), HEAP_XMAX_COMMITTED),
    {
        proof {
            self.lemma_with_flag(HEAP_XMAX_COMMITTED, committed);
        }
        if committed {
            self.t_infomask = self.t_infomask | HEAP_XMAX_COMMITTED;
        } else {
            self.t_infomask = self.t_infomask & !HEAP_XMAX_COMMITTED;
        }
    }

    pub fn xmax_invalid(&self) -> (r: bool)
        ensures
            r == self.flag(HEAP_XMAX_INVALID),
    {
        (self.t_infomask & HEAP_XMAX_INVALID) != 0
    }

    pub fn set_xmax_invalid(&mut self, invalid: bool)
        ensures
            *final(self) == old(self).with_flag(HEAP_XMAX_INVALID, invalid),
            final(self).flag(HEAP_XMAX_INVALID) == invalid,
            final(self).hints_agree_except(*old(self), HEAP_XMAX_INVALID),
    {
        proof {
            self.lemma_with_flag(HEAP_XMAX_INVALID, invalid);
        }
        if invalid {
            self.t_infomask = self.t_infomask | HEAP_XMAX_INVALID;
        } else {
            self.t_infomask = self.t_infomask & !HEAP_XMAX_INVALID;
        }
    }

    pub fn xmax_is_locked_only(&self) -> (r: bool)
        ensures
            r == self.flag(HEAP_XMAX_IS_LOCKED_ONLY),
    {
        (self.t_infomask & HEAP_XMAX_IS_LOCKED_ONLY) != 0
    }

    pub fn set_xmax_is_locked_only(&mut self, locked: bool)
        ensures
            *final(self) == old(self).with_flag(HEAP_XMAX_IS_LOCKED_ONLY, locked),
            final(self).flag(HEAP_XMAX_IS_LOCKED_ONLY) == locked,
            final(self).hints_agree_except(*old(self), HEAP_XMAX_IS_LOCKED_ONLY),
    {
        proof {
            self.lemma_with_flag(HEAP_XMAX_IS_LOCKED_ONLY, locked);
        }
        if locked {
            self.t_infomask = self.t_infomask | HEAP_XMAX_IS_LOCKED_ONLY;
        } else {
            self.t_infomask = self.t_infomask & !HEAP_XMAX_IS_LOCKED_ONLY;
        }
    }

    /// Whether the keys-updated bit is set in `t_infomask2`.
    pub open spec fn spec_keys_updated(&self) -> bool {
        self.t_infomask2 & HEAP_KEYS_UPDATED != 0
    }

    pub fn keys_updated(&self) -> (r: bool)
        ensures
            r == self.spec_keys_updated(),
    {
        (self.t_infomask2 & HEAP_KEYS_UPDATED) != 0
    }

    pub fn set_keys_updated(&mut self, updated: bool)
        ensures
            *final(self) == (HeapTupleHeaderData {
                t_infomask2: if updated {
                    old(self).t_infomask2 | HEAP_KEYS_UPDATED
                } else {
                    old(self).t_infomask2 & !HEAP_KEYS_UPDATED
                },
                ..*old(self)
            }),
            final(self).spec_keys_updated() == updated,
            final(self).spec_natts() == old(self).spec_natts(),
    {
        proof {
            lemma_infomask_flags_disjoint();
            lemma_flag_update(self.t_infomask2, HEAP_KEYS_UPDATED, HEAP_NATTS_MASK);
        }
        if updated {
            self.t_infomask2 = self.t_infomask2 | HEAP_KEYS_UPDATED;
        } else {
            self.t_infomask2 = self.t_infomask2 & !HEAP_KEYS_UPDATED;
        }
    }

    pub fn size() -> (r: usize)
        ensures
            r == HEAP_FIXED_HEADER_SIZE,
    {
        HEAP_FIXED_HEADER_SIZE
    }

    /// The 23 bytes of the header on disk: every field little-endian, in
    /// declaration order. The 24th byte of the fixed header is padding.
    pub open spec fn encode(&self) -> Seq<u8> {
        spec_u32_to_le_bytes(self.t_xmin) + spec_u32_to_le_bytes(self.t_xmax)
            + spec_u32_to_le_bytes(self.t_cid) + spec_u32_to_le_bytes(self.t_ctid.block_number)
            + spec_u16_to_le_bytes(self.t_ctid.offset_number) + spec_u16_to_le_bytes(
            self.t_infomask2,
        ) + spec_u16_to_le_bytes(self.t_infomask) + seq![self.t_hoff]
    }

    /// The header that the first 23 bytes of `b` encode.
    pub open spec fn decode(b: Seq<u8>) -> HeapTupleHeaderData
        recommends
            b.len() >= 23,
    {
        HeapTupleHeaderData {
            t_xmin: spec_u32_from_le_bytes(b.subrange(0, 4)),
            t_xmax: spec_u32_from_le_bytes(b.subrange(4, 8)),
            t_cid: spec_u32_from_le_bytes(b.subrange(8, 12)),
            t_ctid: ItemPointerData {
                block_number: spec_u32_from_le_bytes(b.subrange(12, 16)),
                offset_number: spec_u16_from_le_bytes(b.subrange(16, 18)),
            },
            t_infomask2: spec_u16_from_le_bytes(b.subrange(18, 20)),
            t_infomask: spec_u16_from_le_bytes(b.subrange(20, 22)),
            t_hoff: b[22],
        }
    }

    /// An encoded header is 23 bytes long, and any bytes that start with it
    /// decode to the header it came from.
    pub proof fn lemma_decode_encode(&self, b: Seq<u8>)
        requires
            b.len() >= 23,
            b.subrange(0, 23) == self.encode(),
        ensures
            Self::decode(b) == *self,
    {
        self.lemma_encode_len();
        lemma_auto_spec_u16_to_from_le_bytes();
        lemma_auto_spec_u32_to_from_le_bytes();
        let e = self.encode();
        assert forall|i: int| 0 <= i < 23 implies b[i] == e[i] by {
            assert(b.subrange(0, 23)[i] == b[i]);
        }
        assert(b.subrange(0, 4) =~= spec_u32_to_le_bytes(self.t_xmin));
        assert(b.subrange(4, 8) =~= spec_u32_to_le_bytes(self.t_xmax));
        assert(b.subrange(8, 12) =~= spec_u32_to_le_bytes(self.t_cid));
        assert(b.subrange(12, 16) =~= spec_u32_to_le_bytes(self.t_ctid.block_number));
        assert(b.subrange(16, 18) =~= spec_u16_to_le_bytes(self.t_ctid.offset_number));
        assert(b.subrange(18, 20) =~= spec_u16_to_le_bytes(self.t_infomask2));
        assert(b.subrange(20, 22) =~= spec_u16_to_le_bytes(self.t_infomask));
    }

    pub proof fn lemma_encode_len(&self)
        ensures
            self.encode().len() == 23,
    {
        lemma_auto_spec_u16_to_from_le_bytes();
        lemma_auto_spec_u32_to_from_le_bytes();
    }

    /// The encoded header as a vector.
    pub fn to_bytes(&self) -> (v: Vec<u8>)
        ensures
            v@ == self.encode(),
            v@.len() == 23,
    {
        proof {
            lemma_auto_spec_u16_to_from_le_bytes();
            lemma_auto_spec_u32_to_from_le_bytes();
        }
        let mut v: Vec<u8> = zeroed(23);
        let xmin = u32_le(self.t_xmin);
        put_bytes(&mut v, 0, &xmin);
        let xmax = u32_le(self.t_xmax);
        put_bytes(&mut v, 4, &xmax);
        let cid = u32_le(self.t_cid);
        put_bytes(&mut v, 8, &cid);
        let block = u32_le(self.t_ctid.block_number);
        put_bytes(&mut v, 12, &block);
        let offset = u16_le(self.t_ctid.offset_number);
        put_bytes(&mut v, 16, &offset);
        let infomask2 = u16_le(self.t_infomask2);
        put_bytes(&mut v, 18, &infomask2);
        let infomask = u16_le(self.t_infomask);
        put_bytes(&mut v, 20, &infomask);
        v[22] = self.t_hoff;
        assert(v@ =~= self.encode());
        v
    }

    /// Writes the encoded header over the start of `buf`. A buffer shorter
    /// than the 23 encoded bytes receives the bytes that fit and the call
    /// fails.
    pub fn serialize(&self, buf: &mut [u8]) -> (r: Result<(), HeapError>)
        ensures
            final(buf)@.len() == old(buf)@.len(),
            old(buf)@.len() >= 23 ==> r is Ok && final(buf)@ == overlay(
                old(buf)@,
                0,
                self.encode(),
            ),
            old(buf)@.len() < 23 ==> r is Err && r->Err_0 is IoError && final(buf)@
                == self.encode().subrange(0, old(buf)@.len() as int),
    {
        let enc = self.to_bytes();
        let len = buf.len();
        let n: usize = if len < 23 {
            len
        } else {
            23
        };
        let mut i: usize = 0;
        while i < n
            invariant
                i <= n <= 23,
                n <= len,
                len == buf@.len(),
                len == old(buf)@.len(),
                enc@.len() == 23,
                buf@ == overlay(old(buf)@, 0, enc@.subrange(0, i as int)),
            decreases n - i,
        {
            buf[i] = enc[i];
            assert(buf@ =~= overlay(old(buf)@, 0, enc@.subrange(0, i + 1)));
            i += 1;
        }
        if len < 23 {
            assert(buf@ =~= enc@.subrange(0, len as int));
            Err(HeapError::IoError("failed to write whole buffer".to_string()))
        } else {
            assert(enc@.subrange(0, 23) =~= enc@);
            Ok(())
        }
    }

    /// Reads a header from the start of `buf`, which must hold the whole
    /// fixed header.
    pub fn deserialize(buf: &[u8]) -> (r: Result<Self, HeapError>)
        ensures
            buf@.len() >= 24 ==> r == Ok::<Self, HeapError>(Self::decode(buf@)),
            buf@.len() < 24 ==> r is Err && r->Err_0 is InvalidTuple,
    {
        if buf.len() < HEAP_FIXED_HEADER_SIZE {
            return Err(HeapError::InvalidTuple("buffer too small".to_string()));
        }
        let t_xmin = read_u32_le(slice_subrange(buf, 0, 4));
        let t_xmax = read_u32_le(slice_subrange(buf, 4, 8));
        let t_cid = read_u32_le(slice_subrange(buf, 8, 12));
        let block_number = read_u32_le(slice_subrange(buf, 12, 16));
        let offset_number = read_u16_le(slice_subrange(buf, 16, 18));
        let t_infomask2 = read_u16_le(slice_subrange(buf, 18, 20));
        let t_infomask = read_u16_le(slice_subrange(buf, 20, 22));
        let t_hoff = buf[22];
        proof {
            assert(buf@.subrange(0, 4).subrange(0, 4) =~= buf@.subrange(0, 4));
            assert(buf@.subrange(4, 8).subrange(0, 4) =~= buf@.subrange(4, 8));
            assert(buf@.subrange(8, 12).subrange(0, 4) =~= buf@.subrange(8, 12));
            assert(buf@.subrange(12, 16).subrange(0, 4) =~= buf@.subrange(12, 16));
            assert(buf@.subrange(16, 18).subrange(0, 2) =~= buf@.subrange(16, 18));
            assert(buf@.subrange(18, 20).subrange(0, 2) =~= buf@.subrange(18, 20));
            assert(buf@.subrange(20, 22).subrange(0, 2) =~= buf@.subrange(20, 22));
        }
        Ok(
            Self {
                t_xmin,
                t_xmax,
                t_cid,
                t_ctid: ItemPointerData { block_number, offset_number },
                t_infomask2,
                t_infomask,
                t_hoff,
            },
        )
    }
}

impl Default for HeapTupleHeaderData {
    fn default() -> (r: Self)
        ensures
            r == Self::fresh(0),
    {
        Self::new(0)
    }
}

/// What a tuple holds: its header, its null bitmap and its payload.
pub struct HeapTupleView {
    pub header: HeapTupleHeaderData,
    pub null_bitmap: Option<Seq<u8>>,
    pub data: Seq<u8>,
}

impl HeapTupleView {
    /// The bitmap bytes that count toward the size: those of a bitmap that
    /// is there and that the header announces.
    pub open spec fn counted_bitmap(&self) -> Seq<u8> {
        if self.header.flag(HEAP_HASNULL) && self.null_bitmap is Some {
            self.null_bitmap->Some_0
        } else {
            Seq::empty()
        }
    }

    /// Where the payload starts in the image.
    pub open spec fn data_offset(&self) -> int {
        align8(HEAP_FIXED_HEADER_SIZE + self.counted_bitmap().len())
    }

    /// The length of the image.
    pub open spec fn size(&self) -> int {
        self.data_offset() + self.data.len()
    }

    /// A bitmap is held only where the header announces one. Only such a
    /// tuple has an image.
    pub open spec fn serializable(&self) -> bool {
        self.null_bitmap is Some ==> self.header.flag(HEAP_HASNULL)
    }

    /// The bitmap has the length that a tuple of `natts` attributes has on
    /// disk, so that a reader who knows `natts` finds the payload.
    pub open spec fn matches_natts(&self, natts: u16) -> bool {
        &&& self.serializable()
        &&& self.header.flag(HEAP_HASNULL) ==> self.counted_bitmap().len() == bitmap_len(natts)
    }

    /// The byte-exact image of the tuple: the 23 header bytes, a zero byte of
    /// padding, the null bitmap where there is one, zeros up to the next
    /// multiple of eight, then the payload.
    pub open spec fn image(&self) -> Seq<u8> {
        let bitmap = self.counted_bitmap();
        Seq::new(
            self.size() as nat,
            |i: int|
                if i < 23 {
                    self.header.encode()[i]
                } else if i < 24 {
                    0u8
                } else if i < 24 + bitmap.len() {
                    bitmap[i - 24]
                } else if i < self.data_offset() {
                    0u8
                } else {
                    self.data[i - self.data_offset()]
                },
        )
    }

    /// What an image of at least 24 bytes holds for a reader who expects
    /// `natts` attributes: the header; the bitmap, where the header announces
    /// one and the image is long enough for it; and as payload whatever lies
    /// past the aligned end of the bitmap.
    pub open spec fn parse(buf: Seq<u8>, natts: u16) -> HeapTupleView {
        let header = HeapTupleHeaderData::decode(buf);
        let has_null = header.flag(HEAP_HASNULL);
        let bitmap_size = if has_null {
            bitmap_len(natts)
        } else {
            0
        };
        let offset = align8(HEAP_FIXED_HEADER_SIZE + bitmap_size);
        HeapTupleView {
            header,
            null_bitmap: if has_null && buf.len() >= 24 + bitmap_size {
                Some(buf.subrange(24, 24 + bitmap_size))
            } else {
                None
            },
            data: if offset < buf.len() {
                buf.subrange(offset, buf.len() as int)
            } else {
                Seq::empty()
            },
        }
    }

    /// Whether the tuple holds a bitmap with a bit for the attribute with
    /// the one-based number `attnum`.
    pub open spec fn has_bit_for(&self, attnum: u16) -> bool {
        &&& attnum >= 1
        &&& self.null_bitmap is Some
        &&& (attnum - 1) / 8 < self.null_bitmap->Some_0.len()
    }

    /// Whether the attribute `attnum` is marked null in the bitmap.
    pub open spec fn is_null(&self, attnum: u16) -> bool {
        &&& self.has_bit_for(attnum)
        &&& self.null_bitmap->Some_0[(attnum - 1) / 8] & (1u8 << (((attnum - 1) % 8) as u8)) != 0
    }

    /// The tuple with the bit of the attribute `attnum` set, where it has
    /// one.
    pub open spec fn with_null(&self, attnum: u16) -> HeapTupleView {
        if self.has_bit_for(attnum) {
            let bitmap = self.null_bitmap->Some_0;
            let at = (attnum - 1) / 8;
            HeapTupleView {
                null_bitmap: Some(
                    bitmap.update(at, bitmap[at] | (1u8 << (((attnum - 1) % 8) as u8))),
                ),
                ..*self
            }
        } else {
            *self
        }
    }

    /// The image of a tuple holds at least the fixed header, and reading it
    /// back gives the tuple's header, whatever attribute count the reader
    /// expects.
    pub proof fn lemma_image_header(&self, natts: u16)
        ensures
            self.image().len() >= 24,
            self.image().len() == self.size(),
            Self::parse(self.image(), natts).header == self.header,
    {
        let img = self.image();
        self.header.lemma_encode_len();
        assert(img.subrange(0, 23) =~= self.header.encode());
        self.header.lemma_decode_encode(img);
    }

    /// Reading back the image of a tuple gives its header and its payload,
    /// and its bitmap where the header announces one: the round trip of
    /// serialization, for a reader who expects the attribute count that the
    /// bitmap was made for.
    pub proof fn lemma_parse_image(&self, natts: u16)
        requires
            self.matches_natts(natts),
        ensures
            self.image().len() >= 24,
            Self::parse(self.image(), natts).header == self.header,
            Self::parse(self.image(), natts).data == self.data,
            self.header.flag(HEAP_HASNULL) ==> Self::parse(self.image(), natts).null_bitmap
                == Some(self.counted_bitmap()),
            !self.header.flag(HEAP_HASNULL) ==> Self::parse(self.image(), natts).null_bitmap
                is None,
    {
        let img = self.image();
        self.header.lemma_encode_len();
        assert(img.subrange(0, 23) =~= self.header.encode());
        self.header.lemma_decode_encode(img);
        let p = Self::parse(img, natts);
        assert(p.data =~= self.data);
        if self.header.flag(HEAP_HASNULL) {
            assert(p.null_bitmap->Some_0 =~= self.counted_bitmap());
        }
    }
}

/// A tuple in memory.
#[derive(Debug, Clone)]
pub struct HeapTuple {
    pub header: HeapTupleHeaderData,
    pub null_bitmap: Option<Vec<u8>>,
    pub data: Vec<u8>,
}

impl View for HeapTuple {
    type V = HeapTupleView;

    open spec fn view(&self) -> HeapTupleView {
        HeapTupleView {
            header: self.header,
            null_bitmap: match self.null_bitmap {
                Some(b) => Some(b@),
                None => None,
            },
            data: self.data@,
        }
    }
}

impl HeapTuple {
    /// A tuple of `natts` attributes with a fresh header and no payload.
    pub fn new(natts: u16) -> (r: Self)
        ensures
            r@.header == HeapTupleHeaderData::fresh(natts),
            r@.null_bitmap is None,
            r@.data == Seq::<u8>::empty(),
    {
        Self { header: HeapTupleHeaderData::new(natts), null_bitmap: None, data: Vec::new() }
    }

    /// A tuple of `natts` attributes around `data`. With `has_null` the
    /// header announces a null bitmap, and the tuple holds one, all clear,
    /// unless it has no attributes. The header records where the payload
    /// starts.
    pub fn with_data(natts: u16, data: Vec<u8>, has_null: bool) -> (r: Self)
        ensures
            r@.header == (HeapTupleHeaderData {
                t_hoff: hoff_of(natts, has_null),
                ..HeapTupleHeaderData::fresh(natts).with_flag(HEAP_HASNULL, has_null)
            }),
            r@.header.flag(HEAP_HASNULL) == has_null,
            !has_null ==> r@.header == HeapTupleHeaderData::fresh(natts),
            r@.null_bitmap == if has_null && natts > 0 {
                Some(crate::codec::zero_bytes(bitmap_len(natts) as nat))
            } else {
                None
            },
            r@.data == data@,
            r@.serializable(),
    {
        let mut header = HeapTupleHeaderData::new(natts);
        proof {
            assert(0u16 | HEAP_HASNULL != 0 && 0u16 & !HEAP_HASNULL == 0 && (0u16 | HEAP_HASNULL)
                & HEAP_HASNULL != 0 && 0u16 & HEAP_HASNULL == 0) by (bit_vector);
        }
        if has_null {
            header.t_infomask = header.t_infomask | HEAP_HASNULL;
            header.t_hoff = HeapTupleHeaderData::compute_hoff(natts, true, false);
        }
        let null_bitmap = if has_null && natts > 0 {
            Some(zeroed((natts as usize + 7) / 8))
        } else {
            None
        };
        Self { header, null_bitmap, data }
    }

    pub fn is_null(&self, attnum: u16) -> (r: bool)
        ensures
            r == self@.is_null(attnum),
    {
        if attnum == 0 {
            return false;
        }
        match &self.null_bitmap {
            Some(bitmap) => {
                let byte_idx = (attnum - 1) as usize / 8;
                let bit_idx = ((attnum - 1) % 8) as u8;
                byte_idx < bitmap.len() && (bitmap[byte_idx] & (1u8 << bit_idx)) != 0
            },
            None => false,
        }
    }

    /// Marks the attribute `attnum` null, where the tuple holds a bitmap
    /// that has a bit for it; otherwise nothing changes. No other attribute
    /// is touched.
    pub fn set_null(&mut self, attnum: u16)
        ensures
            final(self)@ == old(self)@.with_null(attnum),
            old(self)@.has_bit_for(attnum) ==> final(self)@.is_null(attnum),
            forall|a: u16|
                a != attnum ==> #[trigger] final(self)@.is_null(a) == old(self)@.is_null(a),
    {
        if attnum == 0 {
            return ;
        }
        let byte_idx = (attnum - 1) as usize / 8;
        let bit_idx = ((attnum - 1) % 8) as u8;
        let ghost before = self@;
        match &mut self.null_bitmap {
            Some(bitmap) => {
                if byte_idx < bitmap.len() {
                    let old_byte = bitmap[byte_idx];
                    bitmap[byte_idx] = old_byte | (1u8 << bit_idx);
                    proof {
                        assert forall|j: u8| j < 8 implies (old_byte | (1u8 << bit_idx)) & (1u8
                            << bit_idx) != 0 && (bit_idx != j ==> #[trigger] ((old_byte | (1u8
                            << bit_idx)) & (1u8 << j)) == old_byte & (1u8 << j)) by {
                            lemma_byte_bit(old_byte, bit_idx, j);
                        }
                    }
                }
            },
            None => {},
        }
        proof {
            assert forall|a: u16| a != attnum implies #[trigger] self@.is_null(a)
                == before.is_null(a) by {
                if before.has_bit_for(a) {
                    let j = ((a - 1) % 8) as u8;
                    if (a - 1) / 8 == byte_idx {
                        assert(j != bit_idx);
                        assert(j < 8);
                    }
                }
            }
        }
    }

    /// The length of the image.
    pub fn size(&self) -> (r: usize)
        requires
            self@.size() <= usize::MAX,
        ensures
            r == self@.size(),
    {
        let mut size: usize = HEAP_FIXED_HEADER_SIZE;
        if self.header.has_null() {
            match &self.null_bitmap {
                Some(bitmap) => {
                    size = size + bitmap.len();
                },
                None => {},
            }
        }
        size = align8_up(size);
        size = size + self.data.len();
        size
    }

    /// The byte-exact image of the tuple.
    pub fn serialize(&self) -> (r: Vec<u8>)
        requires
            self@.serializable(),
            self@.size() <= usize::MAX,
        ensures
            r@ == self@.image(),
            r@.len() == self@.size(),
    {
        let mut buf = zeroed(self.size());
        let head = self.header.to_bytes();
        put_bytes(&mut buf, 0, head.as_slice());
        let mut offset: usize = HEAP_FIXED_HEADER_SIZE;
        match &self.null_bitmap {
            Some(bitmap) => {
                put_bytes(&mut buf, offset, bitmap.as_slice());
                offset = offset + bitmap.len();
            },
            None => {},
        }
        offset = align8_up(offset);
        put_bytes(&mut buf, offset, self.data.as_slice());
        assert(buf@ =~= self@.image());
        buf
    }

    /// Reads a tuple of `natts` attributes from its image. Fails with
    /// `InvalidTuple` exactly when the image is shorter than the fixed header.
    pub fn deserialize(buf: &[u8], natts: u16) -> (r: Result<Self, HeapError>)
        ensures
            match r {
                Ok(t) => buf@.len() >= 24 && t@ == HeapTupleView::parse(buf@, natts),
                Err(e) => buf@.len() < 24 && e is InvalidTuple,
            },
    {
        if buf.len() < HEAP_FIXED_HEADER_SIZE {
            return Err(HeapError::InvalidTuple("buffer too small".to_string()));
        }
        let header = match HeapTupleHeaderData::deserialize(buf) {
            Ok(h) => h,
            Err(e) => {
                return Err(e);
            },
        };
        let has_null = header.has_null();
        let null_bitmap_size: usize = if has_null {
            (natts as usize + 7) / 8
        } else {
            0
        };
        let mut offset: usize = HEAP_FIXED_HEADER_SIZE;
        let null_bitmap = if has_null && buf.len() >= offset + null_bitmap_size {
            Some(copy_range(buf, offset, offset + null_bitmap_size))
        } else {
            None
        };
        offset = offset + null_bitmap_size;
        offset = align8_up(offset);
        let data = if offset < buf.len() {
            copy_range(buf, offset, buf.len())
        } else {
            Vec::new()
        };
        let t = Self { header, null_bitmap, data };
        assert(t@.data =~= HeapTupleView::parse(buf@, natts).data);
        Ok(t)
    }

    /// The value of one attribute. The payload is opaque to the engine, so
    /// no attribute has a value to hand out.
    pub fn get_value(&self, attnum: u16) -> (r: Option<&[u8]>)
        ensures
            r is None,
    {
        if self.is_null(attnum) {
            return None;
        }
        None
    }

    pub fn xmin(&self) -> (r: TransactionId)
        ensures
            r.0 == self@.header.t_xmin,
    {
        TransactionId(self.header.t_xmin)
    }

    pub fn set_xmin(&mut self, xid: TransactionId)
        ensures
            final(self)@ == (HeapTupleView {
                header: HeapTupleHeaderData { t_xmin: xid.0, ..old(self)@.header },
                ..old(self)@
            }),
    {
        self.header.t_xmin = xid.0;
    }

    pub fn xmax(&self) -> (r: TransactionId)
        ensures
            r.0 == self@.header.t_xmax,
    {
        TransactionId(self.header.t_xmax)
    }

    pub fn set_xmax(&mut self, xid: TransactionId)
        ensures
            final(self)@ == (HeapTupleView {
                header: HeapTupleHeaderData { t_xmax: xid.0, ..old(self)@.header },
                ..old(self)@
            }),
    {
        self.header.t_xmax = xid.0;
    }

    pub fn cid(&self) -> (r: CommandId)
        ensures
            r.0 == self@.header.t_cid,
    {
        CommandId(self.header.t_cid)
    }

    pub fn set_cid(&mut self, cid: CommandId)
        ensures
            final(self)@ == (HeapTupleView {
                header: HeapTupleHeaderData { t_cid: cid.0, ..old(self)@.header },
                ..old(self)@
            }),
    {
        self.header.t_cid = cid.0;
    }

    pub fn ctid(&self) -> (r: ItemPointerData)
        ensures
            r == self@.header.t_ctid,
    {
        self.header.t_ctid
    }

    pub fn set_ctid(&mut self, ctid: ItemPointerData)
        ensures
            final(self)@ == (HeapTupleView {
                header: HeapTupleHeaderData { t_ctid: ctid, ..old(self)@.header },
                ..old(self)@
            }),
    {
        self.header.t_ctid = ctid;
    }
}

impl Default for HeapTuple {
    fn default() -> (r: Self)
        ensures
            r@.header == HeapTupleHeaderData::fresh(0),
            r@.null_bitmap is None,
            r@.data == Seq::<u8>::empty(),
    {
        Self::new(0)
    }
}

/// The header of a tuple.
pub fn heap_tuple_get_struct(heap_tuple: &HeapTuple, natts: u16) -> (r: Result<
    HeapTupleHeaderData,
    HeapError,
>)
    ensures
        r == Ok::<HeapTupleHeaderData, HeapError>(heap_tuple@.header),
{
    Ok(heap_tuple.header)
}

} // verus!
