//! Little-endian field codecs and byte-range helpers shared by the on-disk
//! formats.

use byteorder::{ByteOrder, LittleEndian};
use vstd::bytes::{
    spec_u16_from_le_bytes, spec_u16_to_le_bytes, spec_u32_from_le_bytes, spec_u32_to_le_bytes,
    spec_u64_from_le_bytes, spec_u64_to_le_bytes,
};
use vstd::prelude::*;

verus! {

/// `byteorder::LittleEndian::read_u16` on `buf`: the value whose little-endian
/// encoding is the first two bytes. The outside function panics on a shorter
/// slice, which the precondition leaves out.
#[verifier::external_body]
pub(crate) fn read_u16_le(buf: &[u8]) -> (r: u16)
    requires
        buf@.len() >= 2,
    ensures
        r == spec_u16_from_le_bytes(buf@.subrange(0, 2)),
{
    LittleEndian::read_u16(buf)
}

/// `byteorder::LittleEndian::read_u32` on `buf`: the value whose little-endian
/// encoding is the first four bytes. The outside function panics on a shorter
/// slice, which the precondition leaves out.
#[verifier::external_body]
pub(crate) fn read_u32_le(buf: &[u8]) -> (r: u32)
    requires
        buf@.len() >= 4,
    ensures
        r == spec_u32_from_le_bytes(buf@.subrange(0, 4)),
{
    LittleEndian::read_u32(buf)
}

/// `byteorder::LittleEndian::read_u64` on `buf`: the value whose little-endian
/// encoding is the first eight bytes. The outside function panics on a shorter
/// slice, which the precondition leaves out.
#[verifier::external_body]
pub(crate) fn read_u64_le(buf: &[u8]) -> (r: u64)
    requires
        buf@.len() >= 8,
    ensures
        r == spec_u64_from_le_bytes(buf@.subrange(0, 8)),
{
    LittleEndian::read_u64(buf)
}

/// `byteorder::LittleEndian::write_u16` into a fresh two-byte array: the
/// little-endian encoding of `n`.
#[verifier::external_body]
pub(crate) fn u16_le(n: u16) -> (r: [u8; 2])
    ensures
        r@ == spec_u16_to_le_bytes(n),
{
    let mut b = [0u8; 2];
    LittleEndian::write_u16(&mut b, n);
    b
}

/// `byteorder::LittleEndian::write_u32` into a fresh four-byte array: the
/// little-endian encoding of `n`.
#[verifier::external_body]
pub(crate) fn u32_le(n: u32) -> (r: [u8; 4])
    ensures
        r@ == spec_u32_to_le_bytes(n),
{
    let mut b = [0u8; 4];
    LittleEndian::write_u32(&mut b, n);
    b
}

/// `byteorder::LittleEndian::write_u64` into a fresh eight-byte array: the
/// little-endian encoding of `n`.
#[verifier::external_body]
pub(crate) fn u64_le(n: u64) -> (r: [u8; 8])
    ensures
        r@ == spec_u64_to_le_bytes(n),
{
    let mut b = [0u8; 8];
    LittleEndian::write_u64(&mut b, n);
    b
}

/// Setting or clearing the bits of `bit` in `flags` decides the test of `bit`
/// and leaves the test of any disjoint mask as it was.
pub proof fn lemma_flag_update(flags: u16, bit: u16, other: u16)
    by (bit_vector)
    requires
        bit != 0,
        other & bit == 0,
    ensures
        (flags | bit) & bit != 0,
        (flags & !bit) & bit == 0,
        (flags | bit) & other == flags & other,
        (flags & !bit) & other == flags & other,
{
}

/// Setting or clearing one bit of a byte decides that bit and leaves the
/// other bits of the byte alone.
pub proof fn lemma_byte_bit(byte: u8, i: u8, j: u8)
    by (bit_vector)
    requires
        i < 8,
        j < 8,
    ensures
        (byte | (1u8 << i)) & (1u8 << i) != 0,
        (byte & !(1u8 << i)) & (1u8 << i) == 0,
        i != j ==> (byte | (1u8 << i)) & (1u8 << j) == byte & (1u8 << j),
        i != j ==> (byte & !(1u8 << i)) & (1u8 << j) == byte & (1u8 << j),
{
}

/// `uuid::Uuid::new_v4` followed by `Uuid::as_u128`: the 128 bits of a
/// freshly drawn random identifier. Nothing is promised of the value.
#[verifier::external_body]
pub(crate) fn random_bits() -> (r: u128) {
    uuid::Uuid::new_v4().as_u128()
}

/// `base` with the bytes from `at` on replaced by `src`.
pub open spec fn overlay(base: Seq<u8>, at: int, src: Seq<u8>) -> Seq<u8>
    recommends
        0 <= at,
        at + src.len() <= base.len(),
{
    Seq::new(
        base.len(),
        |i: int|
            if at <= i < at + src.len() {
                src[i - at]
            } else {
                base[i]
            },
    )
}

/// A run of `n` zero bytes.
pub open spec fn zero_bytes(n: nat) -> Seq<u8> {
    Seq::new(n, |i: int| 0u8)
}

/// `x` rounded up to a multiple of eight.
pub open spec fn align8(x: int) -> int {
    (x + 7) / 8 * 8
}

/// Rounds `x` up to a multiple of eight.
pub fn align8_up(x: usize) -> (r: usize)
    requires
        x + 7 <= usize::MAX,
    ensures
        r == align8(x as int),
        x <= r < x + 8,
        r % 8 == 0,
{
    (x + 7) / 8 * 8
}

/// A vector of `n` zero bytes.
pub fn zeroed(n: usize) -> (v: Vec<u8>)
    ensures
        v@ == zero_bytes(n as nat),
{
    let v = vec![0u8; n];
    assert(v@ =~= zero_bytes(n as nat));
    v
}

/// Copies `src` over `dst[at..at + src.len())`.
pub fn put_bytes(dst: &mut Vec<u8>, at: usize, src: &[u8])
    requires
        at + src@.len() <= old(dst)@.len(),
    ensures
        final(dst)@ == overlay(old(dst)@, at as int, src@),
{
    let n = src.len();
    let total = dst.len();
    let mut i: usize = 0;
    while i < n
        invariant
            n == src@.len(),
            i <= n,
            at + n <= total,
            total == dst@.len(),
            dst@.len() == old(dst)@.len(),
            dst@ == overlay(old(dst)@, at as int, src@.subrange(0, i as int)),
        decreases n - i,
    {
        dst[at + i] = src[i];
        assert(dst@ =~= overlay(old(dst)@, at as int, src@.subrange(0, i + 1)));
        i += 1;
    }
    assert(src@.subrange(0, n as int) =~= src@);
}

/// The range-indexing of a vector for writing (`IndexMut` of std): a mutable
/// span over `data[from..to)`. Writes through the span land in `data` at
/// `from`; a slice cannot change its length, so the rest of `data` stays as it
/// was. The range must lie within the vector, or indexing panics.
#[verifier::external_body]
pub(crate) fn span_mut(data: &mut Vec<u8>, from: usize, to: usize) -> (r: &mut [u8])
    requires
        from <= to <= old(data)@.len(),
    ensures
        r@ == old(data)@.subrange(from as int, to as int),
        final(r)@.len() == r@.len(),
        final(data)@ == overlay(old(data)@, from as int, final(r)@),
{
    &mut data[from..to]
}

/// Overwrites the whole of `span` with `src`, which has the same length.
pub fn fill(span: &mut [u8], src: &[u8])
    requires
        old(span)@.len() == src@.len(),
    ensures
        final(span)@ == src@,
{
    let n = src.len();
    let mut i: usize = 0;
    while i < n
        invariant
            n == src@.len(),
            span@.len() == n,
            i <= n,
            forall|j: int| 0 <= j < i ==> span@[j] == src@[j],
        decreases n - i,
    {
        span[i] = src[i];
        i += 1;
    }
    assert(span@ =~= src@);
}

/// Appends `src` to `dst`.
pub fn append_bytes(dst: &mut Vec<u8>, src: &[u8])
    ensures
        final(dst)@ == old(dst)@ + src@,
{
    let n = src.len();
    let mut i: usize = 0;
    while i < n
        invariant
            n == src@.len(),
            i <= n,
            dst@ == old(dst)@ + src@.subrange(0, i as int),
        decreases n - i,
    {
        dst.push(src[i]);
        assert(dst@ =~= old(dst)@ + src@.subrange(0, i + 1));
        i += 1;
    }
    assert(src@.subrange(0, n as int) =~= src@);
}

/// Whether two byte strings are equal.
pub fn bytes_equal(a: &[u8], b: &[u8]) -> (r: bool)
    ensures
        r == (a@ == b@),
{
    if a.len() != b.len() {
        return false;
    }
    let n = a.len();
    let mut i: usize = 0;
    while i < n
        invariant
            n == a@.len(),
            n == b@.len(),
            i <= n,
            forall|j: int| 0 <= j < i ==> a@[j] == b@[j],
        decreases n - i,
    {
        if a[i] != b[i] {
            return false;
        }
        i += 1;
    }
    assert(a@ =~= b@);
    true
}

/// A copy of `src[from..to)`.
pub fn copy_range(src: &[u8], from: usize, to: usize) -> (v: Vec<u8>)
    requires
        from <= to <= src@.len(),
    ensures
        v@ == src@.subrange(from as int, to as int),
{
    let mut v: Vec<u8> = Vec::new();
    let mut i: usize = from;
    while i < to
        invariant
            from <= i <= to <= src@.len(),
            v@ == src@.subrange(from as int, i as int),
        decreases to - i,
    {
        v.push(src[i]);
        assert(v@ =~= src@.subrange(from as int, i + 1));
        i += 1;
    }
    v
}

} // verus!
