//! The out-of-line store for large values: the pointer that a tuple keeps in
//! place of the value, the encoding of the value, and its chunks.

use crate::codec::{
    append_bytes, copy_range, put_bytes, random_bits, read_u32_le, u32_le, zeroed,
};
use crate::constants::{TOAST_MAX_CHUNK_SIZE, TOAST_TUPLE_THRESHOLD};
use crate::error::HeapError;
use crate::relation::Relation;
use crate::types::{CommandId, TransactionId};
use std::collections::HashMap;
use vstd::bytes::{
    lemma_auto_spec_u32_to_from_le_bytes, spec_u32_from_le_bytes, spec_u32_to_le_bytes,
};
use vstd::prelude::*;
use vstd::slice::slice_subrange;

verus! {

/// The size of a pointer on disk.
pub const TOAST_POINTER_SIZE: usize = 13;

/// The byte that the encoding puts between pairs of bytes.
pub const TOAST_MARK: u8 = 0xFF;

/// One chunk of a stored value.
#[derive(Debug, Clone)]
pub struct ToastChunk {
    pub chunk_id: u32,
    pub chunk_seq: u32,
    pub data: Vec<u8>,
}

/// The pointer that stands in a tuple for a value stored out of line.
#[derive(Debug, Clone, Copy)]
pub struct ToastPointer {
    pub oid: u32,
    pub chunk_id: u32,
    pub size: u32,
    pub compressed: bool,
}

impl ToastPointer {
    pub fn new(oid: u32, chunk_id: u32, size: u32, compressed: bool) -> (r: Self)
        ensures
            r.oid == oid,
            r.chunk_id == chunk_id,
            r.size == size,
            r.compressed == compressed,
    {
        Self { oid, chunk_id, size, compressed }
    }

    pub fn size() -> (r: usize)
        ensures
            r == TOAST_POINTER_SIZE,
    {
        4 + 4 + 4 + 1
    }

    /// The 13 bytes of the pointer on disk: the object id, the chunk id and
    /// the size, little-endian, and one byte that is 1 for a compressed
    /// value and 0 otherwise.
    pub open spec fn image(&self) -> Seq<u8> {
        spec_u32_to_le_bytes(self.oid) + spec_u32_to_le_bytes(self.chunk_id) + spec_u32_to_le_bytes(
            self.size,
        ) + seq![
            if self.compressed {
                1u8
            } else {
                0u8
            },
        ]
    }

    /// The pointer that the first 13 bytes of `buf` hold.
    pub open spec fn parse(buf: Seq<u8>) -> ToastPointer {
        ToastPointer {
            oid: spec_u32_from_le_bytes(buf.subrange(0, 4)),
            chunk_id: spec_u32_from_le_bytes(buf.subrange(4, 8)),
            size: spec_u32_from_le_bytes(buf.subrange(8, 12)),
            compressed: buf[12] != 0,
        }
    }

    /// Reading back the image of a pointer gives the pointer.
    pub proof fn lemma_parse_image(&self)
        ensures
            self.image().len() == TOAST_POINTER_SIZE,
            Self::parse(self.image()) == *self,
    {
        lemma_auto_spec_u32_to_from_le_bytes();
        let img = self.image();
        assert(img.subrange(0, 4) =~= spec_u32_to_le_bytes(self.oid));
        assert(img.subrange(4, 8) =~= spec_u32_to_le_bytes(self.chunk_id));
        assert(img.subrange(8, 12) =~= spec_u32_to_le_bytes(self.size));
    }

    pub fn serialize(&self) -> (r: Vec<u8>)
        ensures
            r@ == self.image(),
            r@.len() == TOAST_POINTER_SIZE,
    {
        proof {
            lemma_auto_spec_u32_to_from_le_bytes();
        }
        let mut buf = zeroed(Self::size());
        let oid = u32_le(self.oid);
        put_bytes(&mut buf, 0, &oid);
        let chunk_id = u32_le(self.chunk_id);
        put_bytes(&mut buf, 4, &chunk_id);
        let size = u32_le(self.size);
        put_bytes(&mut buf, 8, &size);
        buf[12] = if self.compressed {
            1
        } else {
            0
        };
        assert(buf@ =~= self.image());
        buf
    }

    /// Reads a pointer from the start of `buf`. Fails with `InvalidTuple`
    /// exactly when `buf` is shorter than a pointer.
    pub fn deserialize(buf: &[u8]) -> (r: Result<Self, HeapError>)
        ensures
            match r {
                Ok(p) => buf@.len() >= TOAST_POINTER_SIZE && p == Self::parse(buf@),
                Err(e) => buf@.len() < TOAST_POINTER_SIZE && e is InvalidTuple,
            },
    {
        if buf.len() < Self::size() {
            return Err(HeapError::InvalidTuple("TOAST pointer buffer too small".to_string()));
        }
        let oid = read_u32_le(slice_subrange(buf, 0, 4));
        let chunk_id = read_u32_le(slice_subrange(buf, 4, 8));
        let size = read_u32_le(slice_subrange(buf, 8, 12));
        let compressed = buf[12] != 0;
        proof {
            assert(buf@.subrange(0, 4).subrange(0, 4) =~= buf@.subrange(0, 4));
            assert(buf@.subrange(4, 8).subrange(0, 4) =~= buf@.subrange(4, 8));
            assert(buf@.subrange(8, 12).subrange(0, 4) =~= buf@.subrange(8, 12));
        }
        Ok(Self { oid, chunk_id, size, compressed })
    }
}

/// The encoding of the first `n` bytes of a chunk: the bytes in order, with
/// a mark before every byte at an even position but the first.
pub open spec fn stuffed(chunk: Seq<u8>, n: nat) -> Seq<u8>
    decreases n,
{
    if n == 0 {
        Seq::empty()
    } else if n - 1 > 0 && (n - 1) % 2 == 0 {
        stuffed(chunk, (n - 1) as nat).push(TOAST_MARK).push(chunk[n - 1])
    } else {
        stuffed(chunk, (n - 1) as nat).push(chunk[n - 1])
    }
}

/// The encoding of a chunk: a chunk under 32 bytes stands as it is.
pub open spec fn encoded_chunk(chunk: Seq<u8>) -> Seq<u8> {
    if chunk.len() < 32 {
        chunk
    } else {
        stuffed(chunk, chunk.len())
    }
}

/// The encoding of a value: it is cut into chunks of at most 1992 bytes,
/// and the encodings of the chunks follow one another.
pub open spec fn compressed(data: Seq<u8>) -> Seq<u8>
    decreases data.len(),
{
    if data.len() == 0 {
        Seq::empty()
    } else {
        let n = if data.len() < TOAST_MAX_CHUNK_SIZE {
            data.len() as int
        } else {
            TOAST_MAX_CHUNK_SIZE as int
        };
        encoded_chunk(data.subrange(0, n)) + compressed(data.subrange(n, data.len() as int))
    }
}

/// The decoding of `data` from `i` on: every mark that is not the last byte
/// is dropped.
pub open spec fn unstuffed(data: Seq<u8>, i: int) -> Seq<u8>
    decreases data.len() - i,
{
    if i < 0 || i >= data.len() {
        Seq::empty()
    } else if i + 1 < data.len() && data[i] == TOAST_MARK {
        unstuffed(data, i + 1)
    } else {
        seq![data[i]] + unstuffed(data, i + 1)
    }
}

/// The bytes of the first `n` chunks, one after the other.
pub open spec fn joined(chunks: Seq<ToastChunk>, n: nat) -> Seq<u8>
    decreases n,
{
    if n == 0 {
        Seq::empty()
    } else {
        joined(chunks, (n - 1) as nat) + chunks[n - 1].data@
    }
}

/// Whether `chunks` are the chunks of `bytes` under the id `chunk_id`:
/// numbered from zero, each 1992 bytes long but the last, and together all
/// of `bytes`.
pub open spec fn is_chunking(chunks: Seq<ToastChunk>, chunk_id: u32, bytes: Seq<u8>) -> bool {
    &&& chunks.len() == (bytes.len() + TOAST_MAX_CHUNK_SIZE - 1) / (TOAST_MAX_CHUNK_SIZE as int)
    &&& forall|k: int|
        0 <= k < chunks.len() ==> {
            &&& (#[trigger] chunks[k]).chunk_id == chunk_id
            &&& chunks[k].chunk_seq == k
            &&& chunks[k].data@ == bytes.subrange(
                k * TOAST_MAX_CHUNK_SIZE,
                if (k + 1) * TOAST_MAX_CHUNK_SIZE < bytes.len() {
                    (k + 1) * TOAST_MAX_CHUNK_SIZE
                } else {
                    bytes.len() as int
                },
            )
        }
}

/// The encoding of `n` bytes is at most twice as long.
pub proof fn lemma_stuffed_len(chunk: Seq<u8>, n: nat)
    ensures
        stuffed(chunk, n).len() <= 2 * n,
    decreases n,
{
    if n > 0 {
        lemma_stuffed_len(chunk, (n - 1) as nat);
    }
}

/// The encoding of a value is at most twice as long as the value.
pub proof fn lemma_compressed_len(data: Seq<u8>)
    ensures
        compressed(data).len() <= 2 * data.len(),
    decreases data.len(),
{
    if data.len() > 0 {
        let n = if data.len() < TOAST_MAX_CHUNK_SIZE {
            data.len() as int
        } else {
            TOAST_MAX_CHUNK_SIZE as int
        };
        lemma_stuffed_len(data.subrange(0, n), n as nat);
        lemma_compressed_len(data.subrange(n, data.len() as int));
    }
}

/// The store of the values that are kept out of line for one relation.
pub struct ToastTable {
    pub relation: Relation,
    pub source_oid: u32,
    chunks: HashMap<u32, Vec<ToastChunk>>,
}

impl ToastTable {
    /// Whether the store holds a value under `chunk_id`.
    pub closed spec fn holds(&self, chunk_id: u32) -> bool {
        self.chunks@.contains_key(chunk_id)
    }

    /// The chunks that the store holds under `chunk_id`.
    pub closed spec fn chunks_of(&self, chunk_id: u32) -> Seq<ToastChunk> {
        self.chunks@[chunk_id]@
    }

    /// The object id of the relation whose values the store keeps.
    pub closed spec fn oid(&self) -> u32 {
        self.source_oid
    }

    /// The relation that stands for the store. Storing, fetching and
    /// removing values leave it as it is.
    pub closed spec fn table(&self) -> Relation {
        self.relation
    }

    /// Creates an empty store for the relation `source_oid`.
    pub fn create(source_oid: u32) -> (r: Result<(Self, u32), HeapError>)
        ensures
            r is Ok,
            r->Ok_0.0.oid() == source_oid,
            forall|id: u32| !r->Ok_0.0.holds(id),
    {
        let (relation, rel_node) = match Relation::create(3) {
            Ok(pair) => pair,
            Err(e) => {
                return Err(e);
            },
        };
        Ok((Self { relation, source_oid, chunks: HashMap::new() }, rel_node))
    }

    /// Opens an empty store over the block images of its relation.
    pub fn open(blocks: Vec<(u32, Vec<u8>)>) -> (r: Result<Self, HeapError>)
        ensures
            match r {
                Ok(t) => t.oid() == 0 && forall|id: u32| !t.holds(id),
                Err(e) => {
                    &&& exists|i: int| 0 <= i < blocks@.len() && (#[trigger] blocks@[i]).0 == u32::MAX
                    &&& e is StorageError
                },
            },
    {
        let relation = match Relation::open(blocks) {
            Ok(rel) => rel,
            Err(e) => {
                return Err(e);
            },
        };
        Ok(Self { relation, source_oid: 0, chunks: HashMap::new() })
    }

    /// The encoding of a value.
    pub fn compress(&self, data: &[u8]) -> (r: Result<Vec<u8>, HeapError>)
        ensures
            r is Ok,
            r->Ok_0@ == compressed(data@),
    {
        Ok(encode(data))
    }

    /// The decoding of an encoded value.
    pub fn decompress(&self, data: &[u8]) -> (r: Result<Vec<u8>, HeapError>)
        ensures
            r is Ok,
            r->Ok_0@ == unstuffed(data@, 0),
    {
        Ok(decode(data))
    }

    /// Stores a value under a chunk id that is drawn at random, and returns
    /// the pointer to it. What is stored and returned for the id drawn is
    /// what `store_as` stores and returns for it.
    pub fn store(&mut self, xid: TransactionId, cid: CommandId, data: &[u8]) -> (r: Result<
        ToastPointer,
        HeapError,
    >)
        requires
            data@.len() <= u32::MAX,
        ensures
            final(self).oid() == old(self).oid(),
            final(self).table() == old(self).table(),
            match r {
                Ok(p) => {
                    &&& data@.len() > TOAST_TUPLE_THRESHOLD
                    &&& p.oid == old(self).oid()
                    &&& p.size == data@.len()
                    &&& p.compressed
                    &&& final(self).holds(p.chunk_id)
                    &&& is_chunking(final(self).chunks_of(p.chunk_id), p.chunk_id, compressed(data@))
                    &&& joined(
                        final(self).chunks_of(p.chunk_id),
                        final(self).chunks_of(p.chunk_id).len(),
                    ) == compressed(data@)
                    &&& forall|id: u32|
                        id != p.chunk_id ==> #[trigger] final(self).holds(id) == old(self).holds(id)
                    &&& forall|id: u32|
                        id != p.chunk_id ==>
                            #[trigger] final(self).chunks_of(id) == old(self).chunks_of(id)
                },
                Err(e) => {
                    &&& data@.len() <= TOAST_TUPLE_THRESHOLD
                    &&& e is InvalidOperation
                    &&& forall|id: u32| #[trigger] final(self).holds(id) == old(self).holds(id)
                    &&& forall|id: u32|
                        #[trigger] final(self).chunks_of(id) == old(self).chunks_of(id)
                },
            },
    {
        if data.len() <= TOAST_TUPLE_THRESHOLD {
            return Err(HeapError::InvalidOperation("Data too small for TOAST".to_string()));
        }
        let chunk_id = (random_bits() % 0x1_0000_0000) as u32;
        self.store_as(chunk_id, data)
    }

    /// Stores a value under `chunk_id` and returns the pointer to it: the
    /// value is encoded, the encoding is cut into chunks of at most 1992
    /// bytes, and the chunks replace whatever the store held under that id.
    /// Fails with `InvalidOperation`, changing nothing, for a value of at
    /// most 2048 bytes.
    pub fn store_as(&mut self, chunk_id: u32, data: &[u8]) -> (r: Result<ToastPointer, HeapError>)
        requires
            data@.len() <= u32::MAX,
        ensures
            final(self).oid() == old(self).oid(),
            final(self).table() == old(self).table(),
            forall|id: u32|
                id != chunk_id ==> #[trigger] final(self).holds(id) == old(self).holds(id),
            forall|id: u32|
                id != chunk_id ==> #[trigger] final(self).chunks_of(id) == old(self).chunks_of(id),
            match r {
                Ok(p) => {
                    &&& data@.len() > TOAST_TUPLE_THRESHOLD
                    &&& p == (ToastPointer {
                        oid: old(self).oid(),
                        chunk_id,
                        size: data@.len() as u32,
                        compressed: true,
                    })
                    &&& final(self).holds(chunk_id)
                    &&& is_chunking(final(self).chunks_of(chunk_id), chunk_id, compressed(data@))
                    &&& joined(
                        final(self).chunks_of(chunk_id),
                        final(self).chunks_of(chunk_id).len(),
                    ) == compressed(data@)
                },
                Err(e) => {
                    &&& data@.len() <= TOAST_TUPLE_THRESHOLD
                    &&& e is InvalidOperation
                    &&& final(self).holds(chunk_id) == old(self).holds(chunk_id)
                    &&& final(self).chunks_of(chunk_id) == old(self).chunks_of(chunk_id)
                },
            },
    {
        if data.len() <= TOAST_TUPLE_THRESHOLD {
            return Err(HeapError::InvalidOperation("Data too small for TOAST".to_string()));
        }
        let encoded = encode(data);
        proof {
            lemma_compressed_len(data@);
        }
        let total = encoded.len();
        let mut all_chunks: Vec<ToastChunk> = Vec::new();
        let mut offset: usize = 0;
        let mut seq: u32 = 0;
        while offset < total
            invariant
                total == encoded@.len(),
                total <= 2 * u32::MAX,
                offset <= total,
                offset == seq * TOAST_MAX_CHUNK_SIZE || offset == total,
                offset < total ==> offset == seq * TOAST_MAX_CHUNK_SIZE,
                all_chunks@.len() == seq,
                seq == (offset + TOAST_MAX_CHUNK_SIZE - 1) / (TOAST_MAX_CHUNK_SIZE as int),
                joined(all_chunks@, all_chunks@.len()) == encoded@.subrange(0, offset as int),
                forall|k: int|
                    0 <= k < all_chunks@.len() ==> {
                        &&& (#[trigger] all_chunks@[k]).chunk_id == chunk_id
                        &&& all_chunks@[k].chunk_seq == k
                        &&& all_chunks@[k].data@ == encoded@.subrange(
                            k * TOAST_MAX_CHUNK_SIZE,
                            if (k + 1) * TOAST_MAX_CHUNK_SIZE < total {
                                (k + 1) * TOAST_MAX_CHUNK_SIZE
                            } else {
                                total as int
                            },
                        )
                    },
            decreases total - offset,
        {
            let chunk_size = if total - offset < TOAST_MAX_CHUNK_SIZE {
                total - offset
            } else {
                TOAST_MAX_CHUNK_SIZE
            };
            let toast_chunk = ToastChunk {
                chunk_id,
                chunk_seq: seq,
                data: copy_range(encoded.as_slice(), offset, offset + chunk_size),
            };
            let ghost before = all_chunks@;
            all_chunks.push(toast_chunk);
            proof {
                assert(joined(all_chunks@, before.len()) == joined(before, before.len())) by {
                    lemma_joined_prefix(all_chunks@, before, before.len());
                }
                assert(joined(all_chunks@, all_chunks@.len()) =~= encoded@.subrange(
                    0,
                    offset + chunk_size,
                ));
            }
            offset = offset + chunk_size;
            seq = seq + 1;
        }
        assert(encoded@.subrange(0, total as int) =~= encoded@);
        let ghost stored = all_chunks@;
        let ghost before_map = self.chunks@;
        self.chunks.insert(chunk_id, all_chunks);
        proof {
            assert(self.chunks@ == before_map.insert(chunk_id, self.chunks@[chunk_id]));
            assert(self.chunks@[chunk_id]@ == stored);
        }
        Ok(ToastPointer::new(self.source_oid, chunk_id, data.len() as u32, true))
    }

    /// The value that `pointer` points at: the bytes of its chunks, one
    /// after the other, decoded if the pointer calls the value compressed.
    /// Fails with `InvalidTuple` exactly when the store holds nothing under
    /// the pointer's chunk id.
    pub fn fetch(&self, pointer: &ToastPointer) -> (r: Result<Vec<u8>, HeapError>)
        ensures
            match r {
                Ok(v) => {
                    let stored = joined(
                        self.chunks_of(pointer.chunk_id),
                        self.chunks_of(pointer.chunk_id).len(),
                    );
                    &&& self.holds(pointer.chunk_id)
                    &&& v@ == if pointer.compressed {
                        unstuffed(stored, 0)
                    } else {
                        stored
                    }
                },
                Err(e) => !self.holds(pointer.chunk_id) && e is InvalidTuple,
            },
    {
        match self.chunks.get(&pointer.chunk_id) {
            Some(stored_chunks) => {
                let mut data: Vec<u8> = Vec::new();
                let mut i: usize = 0;
                while i < stored_chunks.len()
                    invariant
                        i <= stored_chunks.len(),
                        data@ == joined(stored_chunks@, i as nat),
                    decreases stored_chunks.len() - i,
                {
                    append_bytes(&mut data, stored_chunks[i].data.as_slice());
                    i += 1;
                }
                if pointer.compressed {
                    return Ok(decode(data.as_slice()));
                }
                Ok(data)
            },
            None => Err(HeapError::InvalidTuple("TOAST chunk not found".to_string())),
        }
    }

    /// Drops what the store holds under `chunk_id`.
    pub fn remove(&mut self, chunk_id: u32) -> (r: Result<(), HeapError>)
        ensures
            r is Ok,
            final(self).oid() == old(self).oid(),
            final(self).table() == old(self).table(),
            !final(self).holds(chunk_id),
            forall|id: u32|
                id != chunk_id ==> #[trigger] final(self).holds(id) == old(self).holds(id),
            forall|id: u32|
                id != chunk_id ==> #[trigger] final(self).chunks_of(id) == old(self).chunks_of(id),
    {
        self.chunks.remove(&chunk_id);
        Ok(())
    }
}

/// The bytes of the first chunks are the same in two sequences that agree
/// on those chunks.
pub proof fn lemma_joined_prefix(a: Seq<ToastChunk>, b: Seq<ToastChunk>, n: nat)
    requires
        n <= a.len(),
        n <= b.len(),
        forall|i: int| 0 <= i < n ==> a[i] == b[i],
    ensures
        joined(a, n) == joined(b, n),
    decreases n,
{
    if n > 0 {
        lemma_joined_prefix(a, b, (n - 1) as nat);
    }
}

/// Encodes a value.
fn encode(data: &[u8]) -> (r: Vec<u8>)
    ensures
        r@ == compressed(data@),
{
    let mut out: Vec<u8> = Vec::new();
    let total = data.len();
    let mut start: usize = 0;
    assert(data@.subrange(0, total as int) =~= data@);
    while start < total
        invariant
            total == data@.len(),
            start <= total,
            out@ + compressed(data@.subrange(start as int, total as int)) == compressed(data@),
        decreases total - start,
    {
        let chunk_size = if total - start < TOAST_MAX_CHUNK_SIZE {
            total - start
        } else {
            TOAST_MAX_CHUNK_SIZE
        };
        let chunk = slice_subrange(data, start, start + chunk_size);
        let ghost rest = data@.subrange(start as int, total as int);
        let ghost before = out@;
        proof {
            assert(rest.subrange(0, chunk_size as int) =~= chunk@);
            assert(rest.subrange(chunk_size as int, rest.len() as int) =~= data@.subrange(
                start + chunk_size,
                total as int,
            ));
        }
        if chunk.len() < 32 {
            append_bytes(&mut out, chunk);
        } else {
            let n = chunk.len();
            let mut i: usize = 0;
            assert(out@ =~= before + stuffed(chunk@, 0));
            while i < n
                invariant
                    n == chunk@.len(),
                    i <= n,
                    out@ == before + stuffed(chunk@, i as nat),
                decreases n - i,
            {
                if i > 0 && i % 2 == 0 {
                    out.push(0xFF);
                }
                out.push(chunk[i]);
                assert(out@ =~= before + stuffed(chunk@, (i + 1) as nat));
                i += 1;
            }
        }
        proof {
            assert(out@ == before + encoded_chunk(chunk@));
            assert((before + encoded_chunk(chunk@)) + compressed(
                data@.subrange(start + chunk_size, total as int),
            ) =~= before + (encoded_chunk(chunk@) + compressed(
                data@.subrange(start + chunk_size, total as int),
            )));
        }
        start = start + chunk_size;
    }
    assert(out@ + Seq::<u8>::empty() =~= out@);
    out
}

/// Decodes an encoded value.
fn decode(data: &[u8]) -> (r: Vec<u8>)
    ensures
        r@ == unstuffed(data@, 0),
{
    let mut out: Vec<u8> = Vec::new();
    let mut i: usize = 0;
    assert(out@ + unstuffed(data@, 0) =~= unstuffed(data@, 0));
    while i < data.len()
        invariant
            i <= data@.len(),
            out@ + unstuffed(data@, i as int) == unstuffed(data@, 0),
        decreases data@.len() - i,
    {
        if i + 1 < data.len() && data[i] == 0xFF {
            i += 1;
        } else {
            let ghost before = out@;
            out.push(data[i]);
            assert(before.push(data@[i as int]) + unstuffed(data@, i + 1) =~= before + (
            seq![data@[i as int]] + unstuffed(data@, i + 1)));
            i += 1;
        }
    }
    assert(out@ + Seq::<u8>::empty() =~= out@);
    out
}

/// Whether no byte of `s` is the mark.
pub open spec fn mark_free(s: Seq<u8>) -> bool {
    forall|i: int| 0 <= i < s.len() ==> #[trigger] s[i] != TOAST_MARK
}

/// Decoding a string reads its second part from scratch once it has passed
/// the first.
pub proof fn lemma_unstuffed_shift(a: Seq<u8>, b: Seq<u8>, j: int)
    requires
        0 <= j <= b.len(),
    ensures
        unstuffed(a + b, a.len() + j) == unstuffed(b, j),
    decreases b.len() - j,
{
    if j < b.len() {
        lemma_unstuffed_shift(a, b, j + 1);
        assert((a + b)[a.len() + j] == b[j]);
    }
}

/// Decoding two strings in a row is decoding each, provided that the first
/// does not end in a mark.
pub proof fn lemma_unstuffed_concat(a: Seq<u8>, b: Seq<u8>, i: int)
    requires
        0 <= i <= a.len(),
        a.len() > 0 ==> a.last() != TOAST_MARK,
    ensures
        unstuffed(a + b, i) == unstuffed(a, i) + unstuffed(b, 0),
    decreases a.len() - i,
{
    if i == a.len() {
        lemma_unstuffed_shift(a, b, 0);
        assert(unstuffed(a, i) + unstuffed(b, 0) =~= unstuffed(b, 0));
    } else {
        lemma_unstuffed_concat(a, b, i + 1);
        assert((a + b)[i] == a[i]);
        if a[i] == TOAST_MARK {
            assert(i + 1 < a.len());
        } else {
            assert(seq![a[i]] + (unstuffed(a, i + 1) + unstuffed(b, 0)) =~= (seq![a[i]]
                + unstuffed(a, i + 1)) + unstuffed(b, 0));
        }
    }
}

/// Decoding a string without marks gives the string.
pub proof fn lemma_unstuffed_plain(s: Seq<u8>, i: int)
    requires
        0 <= i <= s.len(),
        mark_free(s),
    ensures
        unstuffed(s, i) == s.subrange(i, s.len() as int),
    decreases s.len() - i,
{
    if i < s.len() {
        lemma_unstuffed_plain(s, i + 1);
        assert(seq![s[i]] + s.subrange(i + 1, s.len() as int) =~= s.subrange(i, s.len() as int));
    } else {
        assert(s.subrange(i, s.len() as int) =~= Seq::<u8>::empty());
    }
}

/// Decoding the encoding of the first bytes of a chunk without marks gives
/// those bytes, and the encoding does not end in a mark.
pub proof fn lemma_unstuffed_stuffed(chunk: Seq<u8>, n: nat)
    requires
        n <= chunk.len(),
        mark_free(chunk),
    ensures
        unstuffed(stuffed(chunk, n), 0) == chunk.subrange(0, n as int),
        n > 0 ==> stuffed(chunk, n).len() > 0 && stuffed(chunk, n).last() == chunk[n - 1],
    decreases n,
{
    if n == 0 {
        assert(chunk.subrange(0, 0) =~= Seq::<u8>::empty());
    } else {
        let before = stuffed(chunk, (n - 1) as nat);
        lemma_unstuffed_stuffed(chunk, (n - 1) as nat);
        let byte = chunk[n - 1];
        let tail = if n - 1 > 0 && (n - 1) % 2 == 0 {
            seq![TOAST_MARK, byte]
        } else {
            seq![byte]
        };
        assert(stuffed(chunk, n) =~= before + tail);
        lemma_unstuffed_concat(before, tail, 0);
        assert(unstuffed(tail, 0) =~= seq![byte]) by {
            if tail.len() == 2 {
                assert(unstuffed(tail, 2) =~= Seq::<u8>::empty());
                assert(unstuffed(tail, 1) =~= seq![byte]);
            } else {
                assert(unstuffed(tail, 1) =~= Seq::<u8>::empty());
            }
        }
        assert(chunk.subrange(0, n - 1) + seq![byte] =~= chunk.subrange(0, n as int));
    }
}

/// Decoding the encoding of a value gives the value back, provided that no
/// byte of the value is the mark.
pub proof fn lemma_unstuffed_compressed(data: Seq<u8>)
    requires
        mark_free(data),
    ensures
        unstuffed(compressed(data), 0) == data,
    decreases data.len(),
{
    if data.len() == 0 {
        assert(compressed(data) =~= Seq::<u8>::empty());
    } else {
        let n = if data.len() < TOAST_MAX_CHUNK_SIZE {
            data.len() as int
        } else {
            TOAST_MAX_CHUNK_SIZE as int
        };
        let chunk = data.subrange(0, n);
        let rest = data.subrange(n, data.len() as int);
        let encoded = encoded_chunk(chunk);
        lemma_unstuffed_compressed(rest);
        if chunk.len() < 32 {
            lemma_unstuffed_plain(chunk, 0);
            assert(chunk.subrange(0, chunk.len() as int) =~= chunk);
        } else {
            lemma_unstuffed_stuffed(chunk, chunk.len());
            assert(chunk.subrange(0, chunk.len() as int) =~= chunk);
        }
        assert(encoded.len() > 0 && encoded.last() != TOAST_MARK) by {
            if chunk.len() < 32 {
                assert(encoded.last() == chunk[chunk.len() - 1]);
            }
        }
        lemma_unstuffed_concat(encoded, compressed(rest), 0);
        assert(chunk + rest =~= data);
    }
}

} // verus!
