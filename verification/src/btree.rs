//! The index from opaque byte keys to item pointers, and the format of an
//! index page.

use crate::codec::{append_bytes, bytes_equal, copy_range, read_u16_le, read_u32_le, u16_le, u32_le};
use crate::error::HeapError;
use crate::relation::Relation;
use crate::types::ItemPointerData;
use vstd::bytes::{
    lemma_auto_spec_u16_to_from_le_bytes, lemma_auto_spec_u32_to_from_le_bytes,
    spec_u16_from_le_bytes, spec_u16_to_le_bytes, spec_u32_from_le_bytes, spec_u32_to_le_bytes,
};
use vstd::prelude::*;
use vstd::slice::slice_subrange;

verus! {

/// An index entry: a key and the tuple it points at.
pub type Entry = (Seq<u8>, ItemPointerData);

/// A key of the index with its item pointer.
#[derive(Debug, Clone)]
pub struct BTreeKey {
    pub key: Vec<u8>,
    pub ctid: ItemPointerData,
}

impl View for BTreeKey {
    type V = Entry;

    open spec fn view(&self) -> Entry {
        (self.key@, self.ctid)
    }
}

impl BTreeKey {
    pub fn new(key: Vec<u8>, ctid: ItemPointerData) -> (r: Self)
        ensures
            r@ == (key@, ctid),
    {
        Self { key, ctid }
    }

    /// Whether two entries carry the same key. Entries are equal by their
    /// keys, whatever they point at.
    pub fn same_key(&self, other: &BTreeKey) -> (r: bool)
        ensures
            r == (self@.0 == other@.0),
    {
        bytes_equal(self.key.as_slice(), other.key.as_slice())
    }
}

/// The entries of a sequence of keys.
pub open spec fn entries_of(keys: Seq<BTreeKey>) -> Seq<Entry> {
    keys.map_values(|k: BTreeKey| k@)
}

/// The byte that stands for a flag on disk.
pub open spec fn flag_byte(b: bool) -> u8 {
    if b {
        1
    } else {
        0
    }
}

/// The bytes that the first `n` entries take in a page image: for each
/// entry the key length in two bytes, the key, and the pointer in six.
pub open spec fn entries_image(entries: Seq<Entry>, n: nat) -> Seq<u8>
    decreases n,
{
    if n == 0 {
        Seq::empty()
    } else {
        let e = entries[n - 1];
        entries_image(entries, (n - 1) as nat) + spec_u16_to_le_bytes((e.0.len() % 65536) as u16)
            + e.0 + spec_u32_to_le_bytes(e.1.block_number) + spec_u16_to_le_bytes(
            e.1.offset_number,
        )
    }
}

/// The bytes that the first `n` child pointers take in a page image.
pub open spec fn children_image(children: Seq<u32>, n: nat) -> Seq<u8>
    decreases n,
{
    if n == 0 {
        Seq::empty()
    } else {
        children_image(children, (n - 1) as nat) + spec_u32_to_le_bytes(children[n - 1])
    }
}

/// The total of the key lengths of the first `n` entries, each with eight
/// bytes of overhead.
pub open spec fn entries_size(entries: Seq<Entry>, n: nat) -> nat
    decreases n,
{
    if n == 0 {
        0
    } else {
        entries_size(entries, (n - 1) as nat) + entries[n - 1].0.len() + 8
    }
}

/// The entries that a reader finds in `buf` from `offset` on, at most
/// `count` of them, and the offset at which it stops. The reader stops
/// early where the buffer ends before a key length, or before a key and
/// eight more bytes.
pub open spec fn entries_at(buf: Seq<u8>, offset: int, count: nat) -> (Seq<Entry>, int)
    decreases count,
{
    if count == 0 || buf.len() < offset + 2 {
        (Seq::empty(), offset)
    } else {
        let key_len = spec_u16_from_le_bytes(buf.subrange(offset, offset + 2)) as int;
        let start = offset + 2;
        if buf.len() < start + key_len + 8 {
            (Seq::empty(), start)
        } else {
            let at = start + key_len;
            let entry = (
                buf.subrange(start, at),
                ItemPointerData {
                    block_number: spec_u32_from_le_bytes(buf.subrange(at, at + 4)),
                    offset_number: spec_u16_from_le_bytes(buf.subrange(at + 4, at + 6)),
                },
            );
            let (rest, end) = entries_at(buf, at + 6, (count - 1) as nat);
            (seq![entry] + rest, end)
        }
    }
}

/// The child pointers that a reader finds in `buf` from `offset` on, at
/// most `count` of them.
pub open spec fn children_at(buf: Seq<u8>, offset: int, count: nat) -> Seq<u32>
    decreases count,
{
    if count == 0 || buf.len() < offset + 4 {
        Seq::empty()
    } else {
        seq![spec_u32_from_le_bytes(buf.subrange(offset, offset + 4))] + children_at(
            buf,
            offset + 4,
            (count - 1) as nat,
        )
    }
}

/// What an index page holds.
pub struct BTreePageView {
    pub is_leaf: bool,
    pub is_root: bool,
    pub left_sibling: u32,
    pub right_sibling: u32,
    pub keys: Seq<Entry>,
    pub children: Seq<u32>,
}

impl BTreePageView {
    /// The size that the page accounts for: ten bytes of header, the
    /// entries, and four bytes per child.
    pub open spec fn size(&self) -> nat {
        10 + entries_size(self.keys, self.keys.len()) + 4 * self.children.len()
    }

    /// The byte-exact image of the page: the two flags, the two siblings,
    /// the entry count cut to sixteen bits, the entries, and on an inner
    /// page the child count cut to sixteen bits and the children.
    pub open spec fn image(&self) -> Seq<u8> {
        let head = seq![flag_byte(self.is_leaf), flag_byte(self.is_root)] + spec_u32_to_le_bytes(
            self.left_sibling,
        ) + spec_u32_to_le_bytes(self.right_sibling) + spec_u16_to_le_bytes(
            (self.keys.len() % 65536) as u16,
        ) + entries_image(self.keys, self.keys.len());
        if self.is_leaf {
            head
        } else {
            head + spec_u16_to_le_bytes((self.children.len() % 65536) as u16) + children_image(
                self.children,
                self.children.len(),
            )
        }
    }

    /// What a reader finds in an image of at least ten bytes.
    pub open spec fn parse(buf: Seq<u8>) -> BTreePageView {
        let is_leaf = buf[0] != 0;
        let key_count = if buf.len() >= 12 {
            spec_u16_from_le_bytes(buf.subrange(10, 12)) as nat
        } else {
            0
        };
        let (keys, end) = entries_at(buf, 12, key_count);
        BTreePageView {
            is_leaf,
            is_root: buf[1] != 0,
            left_sibling: spec_u32_from_le_bytes(buf.subrange(2, 6)),
            right_sibling: spec_u32_from_le_bytes(buf.subrange(6, 10)),
            keys,
            children: if !is_leaf && buf.len() >= end + 2 {
                children_at(
                    buf,
                    end + 2,
                    spec_u16_from_le_bytes(buf.subrange(end, end + 2)) as nat,
                )
            } else {
                Seq::empty()
            },
        }
    }
}

/// A page of the index.
#[derive(Debug, Clone)]
pub struct BTreePage {
    pub is_leaf: bool,
    pub is_root: bool,
    pub left_sibling: u32,
    pub right_sibling: u32,
    pub keys: Vec<BTreeKey>,
    pub children: Vec<u32>,
}

impl View for BTreePage {
    type V = BTreePageView;

    open spec fn view(&self) -> BTreePageView {
        BTreePageView {
            is_leaf: self.is_leaf,
            is_root: self.is_root,
            left_sibling: self.left_sibling,
            right_sibling: self.right_sibling,
            keys: entries_of(self.keys@),
            children: self.children@,
        }
    }
}

impl BTreePage {
    /// An empty page that is no root and has no siblings.
    pub fn new(is_leaf: bool) -> (r: Self)
        ensures
            r@ == (BTreePageView {
                is_leaf,
                is_root: false,
                left_sibling: 0,
                right_sibling: 0,
                keys: Seq::empty(),
                children: Seq::empty(),
            }),
    {
        let r = Self {
            is_leaf,
            is_root: false,
            left_sibling: 0,
            right_sibling: 0,
            keys: Vec::new(),
            children: Vec::new(),
        };
        assert(entries_of(r.keys@) =~= Seq::<Entry>::empty());
        r
    }

    /// The size that the page accounts for.
    pub fn size(&self) -> (r: usize)
        requires
            self@.size() <= usize::MAX,
        ensures
            r == self@.size(),
    {
        let ghost entries = entries_of(self.keys@);
        let mut key_size: usize = 0;
        let mut i: usize = 0;
        proof {
            lemma_entries_size_grows(entries, 0, entries.len());
        }
        while i < self.keys.len()
            invariant
                i <= self.keys.len(),
                entries == entries_of(self.keys@),
                key_size == entries_size(entries, i as nat),
                entries_size(entries, entries.len()) <= usize::MAX,
            decreases self.keys.len() - i,
        {
            proof {
                lemma_entries_size_grows(entries, (i + 1) as nat, entries.len());
            }
            key_size = key_size + self.keys[i].key.len() + 8;
            i += 1;
        }
        let child_size = self.children.len() * 4;
        1 + 1 + 4 + 4 + key_size + child_size
    }

    /// The byte-exact image of the page.
    pub fn serialize(&self) -> (r: Vec<u8>)
        ensures
            r@ == self@.image(),
    {
        let ghost entries = entries_of(self.keys@);
        let mut buf: Vec<u8> = Vec::new();
        buf.push(if self.is_leaf { 1 } else { 0 });
        buf.push(if self.is_root { 1 } else { 0 });
        let left = u32_le(self.left_sibling);
        append_bytes(&mut buf, &left);
        let right = u32_le(self.right_sibling);
        append_bytes(&mut buf, &right);
        let count = u16_le((self.keys.len() % 65536) as u16);
        append_bytes(&mut buf, &count);
        let ghost head = buf@;
        assert(head =~= seq![flag_byte(self.is_leaf), flag_byte(self.is_root)]
            + spec_u32_to_le_bytes(self.left_sibling) + spec_u32_to_le_bytes(self.right_sibling)
            + spec_u16_to_le_bytes((self.keys.len() % 65536) as u16));
        let mut i: usize = 0;
        assert(buf@ =~= head + entries_image(entries, 0));
        while i < self.keys.len()
            invariant
                i <= self.keys.len(),
                entries == entries_of(self.keys@),
                buf@ == head + entries_image(entries, i as nat),
            decreases self.keys.len() - i,
        {
            let key = &self.keys[i];
            let key_len = u16_le((key.key.len() % 65536) as u16);
            append_bytes(&mut buf, &key_len);
            append_bytes(&mut buf, key.key.as_slice());
            let block = u32_le(key.ctid.block_number);
            append_bytes(&mut buf, &block);
            let offset = u16_le(key.ctid.offset_number);
            append_bytes(&mut buf, &offset);
            assert(buf@ =~= head + entries_image(entries, (i + 1) as nat));
            i += 1;
        }
        if !self.is_leaf {
            let ghost with_keys = buf@;
            let child_count = u16_le((self.children.len() % 65536) as u16);
            append_bytes(&mut buf, &child_count);
            let ghost with_count = buf@;
            let mut j: usize = 0;
            assert(buf@ =~= with_count + children_image(self.children@, 0));
            while j < self.children.len()
                invariant
                    j <= self.children.len(),
                    buf@ == with_count + children_image(self.children@, j as nat),
                decreases self.children.len() - j,
            {
                let child = u32_le(self.children[j]);
                append_bytes(&mut buf, &child);
                assert(buf@ =~= with_count + children_image(self.children@, (j + 1) as nat));
                j += 1;
            }
            assert(buf@ =~= self@.image());
        }
        buf
    }

    /// Reads a page from its image. Fails with `CorruptedData` exactly when
    /// the image is shorter than ten bytes; an image that ends early gives
    /// the entries and children that were found before its end.
    pub fn deserialize(buf: &[u8]) -> (r: Result<Self, HeapError>)
        ensures
            match r {
                Ok(page) => buf@.len() >= 10 && page@ == BTreePageView::parse(buf@),
                Err(e) => buf@.len() < 10 && e is CorruptedData,
            },
    {
        if buf.len() < 10 {
            return Err(HeapError::CorruptedData("BTree page too small".to_string()));
        }
        let is_leaf = buf[0] != 0;
        let is_root = buf[1] != 0;
        let left_sibling = read_u32_le(slice_subrange(buf, 2, 6));
        let right_sibling = read_u32_le(slice_subrange(buf, 6, 10));
        proof {
            assert(buf@.subrange(2, 6).subrange(0, 4) =~= buf@.subrange(2, 6));
            assert(buf@.subrange(6, 10).subrange(0, 4) =~= buf@.subrange(6, 10));
        }
        let mut offset: usize = 10;
        let key_count: usize = if buf.len() >= offset + 2 {
            proof {
                assert(buf@.subrange(10, 12).subrange(0, 2) =~= buf@.subrange(10, 12));
            }
            read_u16_le(slice_subrange(buf, 10, 12)) as usize
        } else {
            0
        };
        offset = offset + 2;
        let ghost all = entries_at(buf@, 12, key_count as nat);
        let mut keys: Vec<BTreeKey> = Vec::new();
        let mut remaining = key_count;
        let mut stopped = false;
        assert(entries_of(keys@) =~= Seq::<Entry>::empty());
        assert(Seq::<Entry>::empty() + all.0 =~= all.0);
        while remaining > 0 && !stopped
            invariant
                offset <= buf@.len() || offset == 12,
                buf@.len() >= 10,
                !stopped ==> entries_of(keys@) + entries_at(buf@, offset as int, remaining as nat).0
                    == all.0,
                !stopped ==> entries_at(buf@, offset as int, remaining as nat).1 == all.1,
                stopped ==> entries_of(keys@) == all.0 && offset == all.1,
            decreases remaining + (if stopped { 0int } else { 1int }),
        {
            if !has_room(buf.len(), offset, 2) {
                proof {
                    assert(entries_of(keys@) + Seq::<Entry>::empty() =~= entries_of(keys@));
                }
                stopped = true;
            } else {
                proof {
                    assert(buf@.subrange(offset as int, offset + 2).subrange(0, 2)
                        =~= buf@.subrange(offset as int, offset + 2));
                }
                let key_len = read_u16_le(slice_subrange(buf, offset, offset + 2)) as usize;
                let ghost at_len = offset;
                offset = offset + 2;
                if !has_room(buf.len(), offset, key_len + 8) {
                    proof {
                        assert(entries_of(keys@) + Seq::<Entry>::empty() =~= entries_of(keys@));
                    }
                    stopped = true;
                } else {
                    let key = copy_range(buf, offset, offset + key_len);
                    offset = offset + key_len;
                    proof {
                        assert(buf@.subrange(offset as int, offset + 4).subrange(0, 4)
                            =~= buf@.subrange(offset as int, offset + 4));
                        assert(buf@.subrange(offset + 4, offset + 6).subrange(0, 2)
                            =~= buf@.subrange(offset + 4, offset + 6));
                    }
                    let block_num = read_u32_le(slice_subrange(buf, offset, offset + 4));
                    let offset_num = read_u16_le(slice_subrange(buf, offset + 4, offset + 6));
                    offset = offset + 6;
                    let ghost before = entries_of(keys@);
                    let entry = BTreeKey::new(
                        key,
                        ItemPointerData { block_number: block_num, offset_number: offset_num },
                    );
                    let ghost added = entry@;
                    keys.push(entry);
                    remaining = remaining - 1;
                    proof {
                        assert(entries_of(keys@) =~= before.push(added));
                        let rest = entries_at(buf@, offset as int, remaining as nat);
                        assert(before.push(added) + rest.0 =~= before + (seq![added] + rest.0));
                    }
                }
            }
        }
        proof {
            if !stopped {
                assert(entries_of(keys@) + Seq::<Entry>::empty() =~= entries_of(keys@));
            }
        }
        let mut children: Vec<u32> = Vec::new();
        if !is_leaf && has_room(buf.len(), offset, 2) {
            proof {
                assert(buf@.subrange(offset as int, offset + 2).subrange(0, 2) =~= buf@.subrange(
                    offset as int,
                    offset + 2,
                ));
            }
            let child_count = read_u16_le(slice_subrange(buf, offset, offset + 2)) as usize;
            offset = offset + 2;
            let ghost start = offset;
            let ghost expected = children_at(buf@, offset as int, child_count as nat);
            let mut left = child_count;
            let mut done = false;
            assert(Seq::<u32>::empty() + expected =~= expected);
            while left > 0 && !done
                invariant
                    offset <= buf@.len(),
                    !done ==> children@ + children_at(buf@, offset as int, left as nat) == expected,
                    done ==> children@ == expected,
                decreases left + (if done { 0int } else { 1int }),
            {
                if !has_room(buf.len(), offset, 4) {
                    proof {
                        assert(children@ + Seq::<u32>::empty() =~= children@);
                    }
                    done = true;
                } else {
                    proof {
                        assert(buf@.subrange(offset as int, offset + 4).subrange(0, 4)
                            =~= buf@.subrange(offset as int, offset + 4));
                    }
                    let child = read_u32_le(slice_subrange(buf, offset, offset + 4));
                    let ghost before = children@;
                    children.push(child);
                    offset = offset + 4;
                    left = left - 1;
                    proof {
                        let rest = children_at(buf@, offset as int, left as nat);
                        assert(before.push(child) + rest =~= before + (seq![child] + rest));
                    }
                }
            }
            proof {
                if !done {
                    assert(children@ + Seq::<u32>::empty() =~= children@);
                }
            }
        }
        Ok(Self { is_leaf, is_root, left_sibling, right_sibling, keys, children })
    }
}

/// Whether a buffer of `len` bytes holds `need` bytes from `offset` on.
fn has_room(len: usize, offset: usize, need: usize) -> (r: bool)
    ensures
        r == (len >= offset + need),
{
    offset <= len && len - offset >= need
}

/// The size of the first entries does not exceed the size of more of them.
pub proof fn lemma_entries_size_grows(entries: Seq<Entry>, n: nat, m: nat)
    requires
        n <= m,
    ensures
        entries_size(entries, n) <= entries_size(entries, m),
    decreases m - n,
{
    if n < m {
        lemma_entries_size_grows(entries, n, (m - 1) as nat);
    }
}

/// The pointers of the first `n` entries that carry the key `key`, in the
/// order of the entries.
pub open spec fn pointers_for(entries: Seq<Entry>, key: Seq<u8>, n: nat) -> Seq<ItemPointerData>
    decreases n,
{
    if n == 0 {
        Seq::empty()
    } else if entries[n - 1].0 == key {
        pointers_for(entries, key, (n - 1) as nat).push(entries[n - 1].1)
    } else {
        pointers_for(entries, key, (n - 1) as nat)
    }
}

/// The first `n` entries without those that carry the key `key`, order kept.
pub open spec fn without_key(entries: Seq<Entry>, key: Seq<u8>, n: nat) -> Seq<Entry>
    decreases n,
{
    if n == 0 {
        Seq::empty()
    } else if entries[n - 1].0 == key {
        without_key(entries, key, (n - 1) as nat)
    } else {
        without_key(entries, key, (n - 1) as nat).push(entries[n - 1])
    }
}

/// The entries of a scan result.
pub open spec fn pairs_of(found: Seq<(Vec<u8>, ItemPointerData)>) -> Seq<Entry> {
    found.map_values(|e: (Vec<u8>, ItemPointerData)| (e.0@, e.1))
}

/// What two sequences of entries hold for a key is the same as far as the
/// sequences agree.
pub proof fn lemma_pointers_for_prefix(a: Seq<Entry>, b: Seq<Entry>, key: Seq<u8>, n: nat)
    requires
        n <= a.len(),
        n <= b.len(),
        forall|i: int| 0 <= i < n ==> a[i] == b[i],
    ensures
        pointers_for(a, key, n) == pointers_for(b, key, n),
    decreases n,
{
    if n > 0 {
        lemma_pointers_for_prefix(a, b, key, (n - 1) as nat);
    }
}

/// Appending an entry appends its pointer to what the index holds for its
/// key, and changes nothing for any other key.
pub proof fn lemma_entry_added(entries: Seq<Entry>, entry: Entry, key: Seq<u8>)
    ensures
        pointers_for(entries.push(entry), key, entries.len() + 1) == if entry.0 == key {
            pointers_for(entries, key, entries.len()).push(entry.1)
        } else {
            pointers_for(entries, key, entries.len())
        },
{
    lemma_pointers_for_prefix(entries.push(entry), entries, key, entries.len());
}

/// Taking out the entries of a key leaves nothing for that key, and leaves
/// for every other key what the index held before.
pub proof fn lemma_key_removed(entries: Seq<Entry>, removed: Seq<u8>, key: Seq<u8>, n: nat)
    requires
        n <= entries.len(),
    ensures
        pointers_for(
            without_key(entries, removed, n),
            key,
            without_key(entries, removed, n).len(),
        ) == if key == removed {
            Seq::empty()
        } else {
            pointers_for(entries, key, n)
        },
    decreases n,
{
    if n > 0 {
        lemma_key_removed(entries, removed, key, (n - 1) as nat);
        if entries[n - 1].0 != removed {
            lemma_entry_added(without_key(entries, removed, (n - 1) as nat), entries[n - 1], key);
        }
    }
}

/// The index: its entries, in the order in which they were inserted, and
/// the relation that stands for it.
pub struct BTreeIndex {
    pub relation: Relation,
    root_block: Option<u32>,
    keys: Vec<BTreeKey>,
}

impl BTreeIndex {
    /// The entries of the index, in the order in which they were inserted.
    pub closed spec fn entries(&self) -> Seq<Entry> {
        entries_of(self.keys@)
    }

    /// The block of the root page, if the index was set up.
    pub closed spec fn root(&self) -> Option<u32> {
        self.root_block
    }

    /// The state of the block device of the index's relation.
    pub closed spec fn store(&self) -> crate::storage::StorageView {
        self.relation.storage@
    }

    /// Whether the root page of the index can be read.
    pub open spec fn root_readable(&self) -> bool {
        self.root() is Some && self.store().read(self.root()->Some_0) is Page
    }

    /// Creates an empty index on a fresh relation, with its root in block
    /// zero.
    pub fn create() -> (r: Result<(Self, u32), HeapError>)
        ensures
            r is Ok,
            r->Ok_0.0.entries() == Seq::<Entry>::empty(),
            r->Ok_0.0.root() == Some(0u32),
            r->Ok_0.0.store().wf(),
            r->Ok_0.0.root_readable(),
    {
        let (relation, rel_node) = match Relation::create(0) {
            Ok(pair) => pair,
            Err(e) => {
                return Err(e);
            },
        };
        proof {
            crate::storage::StorageView::empty().lemma_with_page(
                0,
                crate::page::PageView::empty(crate::constants::BLCKSZ as nat),
            );
        }
        let index = Self { relation, root_block: Some(0), keys: Vec::new() };
        assert(index.entries() =~= Seq::<Entry>::empty());
        Ok((index, rel_node))
    }

    /// Opens an empty index over the block images of its relation, with its
    /// root in block zero.
    pub fn open(blocks: Vec<(u32, Vec<u8>)>) -> (r: Result<Self, HeapError>)
        ensures
            match r {
                Ok(index) => {
                    &&& index.entries() == Seq::<Entry>::empty()
                    &&& index.root() == Some(0u32)
                    &&& index.store().wf()
                },
                Err(e) => {
                    &&& exists|i: int| 0 <= i < blocks@.len() && (#[trigger] blocks@[i]).0 == u32::MAX
                    &&& e is StorageError
                },
            },
    {
        let relation = match Relation::open(blocks) {
            Ok(rel) => rel,
            Err(e) => {
                return Err(e);
            },
        };
        let index = Self { relation, root_block: Some(0), keys: Vec::new() };
        assert(index.entries() =~= Seq::<Entry>::empty());
        Ok(index)
    }

    /// The number of entries.
    pub fn key_count(&self) -> (r: usize)
        ensures
            r == self.entries().len(),
    {
        self.keys.len()
    }

    /// Adds an entry for `key` that points at `ctid`. Fails, changing
    /// nothing, with `InvalidOperation` where the index has no root, and
    /// with the read error of the root page where that page cannot be read.
    pub fn insert(&mut self, key: Vec<u8>, ctid: ItemPointerData) -> (r: Result<(), HeapError>)
        ensures
            final(self).store() == old(self).store(),
            final(self).root() == old(self).root(),
            match r {
                Ok(_) => {
                    &&& old(self).root_readable()
                    &&& final(self).entries() == old(self).entries().push((key@, ctid))
                    &&& pointers_for(final(self).entries(), key@, final(self).entries().len())
                        == pointers_for(old(self).entries(), key@, old(self).entries().len()).push(
                        ctid,
                    )
                },
                Err(e) => {
                    &&& !old(self).root_readable()
                    &&& final(self).entries() == old(self).entries()
                    &&& match old(self).root() {
                        None => e is InvalidOperation,
                        Some(root) => crate::heap_model::is_read_error(old(self).store(), root, e),
                    }
                },
            },
    {
        let root = match self.root_block {
            Some(n) => n,
            None => {
                return Err(HeapError::InvalidOperation("Index not initialized".to_string()));
            },
        };
        match self.relation.read_page(root) {
            Ok(_) => {},
            Err(e) => {
                return Err(e);
            },
        }
        proof {
            lemma_entry_added(self.entries(), (key@, ctid), key@);
        }
        let ghost before = self.entries();
        self.keys.push(BTreeKey::new(key, ctid));
        assert(self.entries() =~= before.push((key@, ctid)));
        Ok(())
    }

    /// The pointers of the entries for `key`, in the order in which they
    /// were inserted.
    pub fn search(&self, key: &[u8]) -> (r: Result<Vec<ItemPointerData>, HeapError>)
        ensures
            r is Ok,
            r->Ok_0@ == if self.root() is Some {
                pointers_for(self.entries(), key@, self.entries().len())
            } else {
                Seq::empty()
            },
    {
        if self.root_block.is_none() {
            return Ok(Vec::new());
        }
        let mut results: Vec<ItemPointerData> = Vec::new();
        let mut i: usize = 0;
        while i < self.keys.len()
            invariant
                i <= self.keys.len(),
                results@ == pointers_for(self.entries(), key@, i as nat),
            decreases self.keys.len() - i,
        {
            if bytes_equal(self.keys[i].key.as_slice(), key) {
                results.push(self.keys[i].ctid);
            }
            i += 1;
        }
        Ok(results)
    }

    /// Takes out every entry for `key`, and returns whether there was one.
    pub fn delete(&mut self, key: &[u8]) -> (r: Result<bool, HeapError>)
        ensures
            final(self).store() == old(self).store(),
            final(self).root() == old(self).root(),
            r is Ok,
            old(self).root() is None ==>
                r->Ok_0 == false && final(self).entries() == old(self).entries(),
            old(self).root() is Some ==> {
                &&& final(self).entries() == without_key(
                    old(self).entries(),
                    key@,
                    old(self).entries().len(),
                )
                &&& r->Ok_0 == (pointers_for(
                    old(self).entries(),
                    key@,
                    old(self).entries().len(),
                ).len() > 0)
                &&& pointers_for(final(self).entries(), key@, final(self).entries().len())
                    == Seq::<ItemPointerData>::empty()
            },
    {
        if self.root_block.is_none() {
            return Ok(false);
        }
        let ghost before = self.entries();
        proof {
            lemma_key_removed(before, key@, key@, before.len());
        }
        let mut kept: Vec<BTreeKey> = Vec::new();
        let mut found = false;
        let mut i: usize = 0;
        assert(entries_of(kept@) =~= Seq::<Entry>::empty());
        while i < self.keys.len()
            invariant
                i <= self.keys.len(),
                before == entries_of(self.keys@),
                entries_of(kept@) == without_key(before, key@, i as nat),
                found == (pointers_for(before, key@, i as nat).len() > 0),
            decreases self.keys.len() - i,
        {
            if bytes_equal(self.keys[i].key.as_slice(), key) {
                found = true;
            } else {
                let ghost so_far = entries_of(kept@);
                let entry = BTreeKey::new(
                    copy_range(self.keys[i].key.as_slice(), 0, self.keys[i].key.len()),
                    self.keys[i].ctid,
                );
                assert(self.keys@[i as int].key@.subrange(0, self.keys@[i as int].key@.len() as int)
                    =~= self.keys@[i as int].key@);
                kept.push(entry);
                assert(entries_of(kept@) =~= so_far.push(before[i as int]));
            }
            i += 1;
        }
        self.keys = kept;
        Ok(found)
    }

    /// All entries, in the order in which they were inserted.
    pub fn scan(&self) -> (r: Result<Vec<(Vec<u8>, ItemPointerData)>, HeapError>)
        ensures
            r is Ok,
            pairs_of(r->Ok_0@) == if self.root() is Some {
                self.entries()
            } else {
                Seq::empty()
            },
    {
        let mut results: Vec<(Vec<u8>, ItemPointerData)> = Vec::new();
        assert(pairs_of(results@) =~= Seq::<Entry>::empty());
        if self.root_block.is_none() {
            return Ok(results);
        }
        let mut i: usize = 0;
        while i < self.keys.len()
            invariant
                i <= self.keys.len(),
                pairs_of(results@) == self.entries().subrange(0, i as int),
            decreases self.keys.len() - i,
        {
            let ghost so_far = pairs_of(results@);
            let key = copy_range(self.keys[i].key.as_slice(), 0, self.keys[i].key.len());
            assert(self.keys@[i as int].key@.subrange(0, self.keys@[i as int].key@.len() as int)
                =~= self.keys@[i as int].key@);
            let ghost entry = (key@, self.keys@[i as int].ctid);
            results.push((key, self.keys[i].ctid));
            assert(pairs_of(results@) =~= so_far.push(entry));
            assert(self.entries()[i as int] == entry);
            assert(pairs_of(results@) =~= self.entries().subrange(0, i + 1));
            i += 1;
        }
        assert(self.entries().subrange(0, i as int) =~= self.entries());
        Ok(results)
    }
}

/// The bytes that one entry takes in a page image.
pub open spec fn entry_image(e: Entry) -> Seq<u8> {
    spec_u16_to_le_bytes((e.0.len() % 65536) as u16) + e.0 + spec_u32_to_le_bytes(e.1.block_number)
        + spec_u16_to_le_bytes(e.1.offset_number)
}

/// The image of the first entries is the image of one entry less, followed
/// by the image of the last of them.
pub proof fn lemma_entries_image_step(entries: Seq<Entry>, n: nat)
    requires
        n > 0,
    ensures
        entries_image(entries, n) == entries_image(entries, (n - 1) as nat) + entry_image(
            entries[n - 1],
        ),
        entries_image(entries, n).len() == entries_image(entries, (n - 1) as nat).len()
            + entries[n - 1].0.len() + 8,
{
    lemma_auto_spec_u16_to_from_le_bytes();
    lemma_auto_spec_u32_to_from_le_bytes();
    let e = entries[n - 1];
    assert(entries_image(entries, n) =~= entries_image(entries, (n - 1) as nat) + entry_image(e));
}

/// Within the image of the first `n` entries, the image of the entry `k`
/// stands right after the image of the entries before it.
pub proof fn lemma_entries_image_at(entries: Seq<Entry>, n: nat, k: nat)
    requires
        k < n,
    ensures
        entries_image(entries, k).len() + entries[k as int].0.len() + 8 <= entries_image(
            entries,
            n,
        ).len(),
        entries_image(entries, n).subrange(
            entries_image(entries, k).len() as int,
            entries_image(entries, k).len() as int + entries[k as int].0.len() + 8,
        ) == entry_image(entries[k as int]),
    decreases n,
{
    lemma_entries_image_step(entries, n);
    let whole = entries_image(entries, n);
    let front = entries_image(entries, (n - 1) as nat);
    let at = entries_image(entries, k).len() as int;
    let len = entries[k as int].0.len() + 8;
    if k == n - 1 {
        assert(whole.subrange(at, at + len) =~= entry_image(entries[k as int]));
    } else {
        lemma_entries_image_at(entries, (n - 1) as nat, k);
        assert(whole.subrange(at, at + len) =~= front.subrange(at, at + len));
    }
}

/// A reader that starts at the entry `k` of an image of entries, with at
/// least two more bytes behind them, finds the entries from `k` on and
/// stops behind the last.
pub proof fn lemma_entries_at_image(buf: Seq<u8>, base: int, entries: Seq<Entry>, k: nat)
    requires
        0 <= base,
        k <= entries.len(),
        forall|i: int| 0 <= i < entries.len() ==> (#[trigger] entries[i]).0.len() <= 65535,
        buf.len() >= base + entries_image(entries, entries.len()).len() + 2,
        buf.subrange(base, base + entries_image(entries, entries.len()).len())
            == entries_image(entries, entries.len()),
    ensures
        entries_at(
            buf,
            base + entries_image(entries, k).len(),
            (entries.len() - k) as nat,
        ) == (
            entries.subrange(k as int, entries.len() as int),
            base + entries_image(entries, entries.len()).len(),
        ),
    decreases entries.len() - k,
{
    let n = entries.len();
    let whole = entries_image(entries, n);
    let offset = base + entries_image(entries, k).len();
    if k == n {
        assert(entries.subrange(k as int, n as int) =~= Seq::<Entry>::empty());
    } else {
        lemma_auto_spec_u16_to_from_le_bytes();
        lemma_auto_spec_u32_to_from_le_bytes();
        let e = entries[k as int];
        let key_len = e.0.len() as int;
        lemma_entries_image_at(entries, n, k);
        lemma_entries_image_step(entries, (k + 1) as nat);
        let image = entry_image(e);
        assert(buf.subrange(offset, offset + key_len + 8) =~= whole.subrange(
            offset - base,
            offset - base + key_len + 8,
        ));
        assert(buf.subrange(offset, offset + key_len + 8) == image);
        assert forall|j: int| 0 <= j < key_len + 8 implies buf[offset + j] == image[j] by {
            assert(buf.subrange(offset, offset + key_len + 8)[j] == buf[offset + j]);
        }
        assert(buf.subrange(offset, offset + 2) =~= spec_u16_to_le_bytes(
            (e.0.len() % 65536) as u16,
        ));
        let start = offset + 2;
        let at = start + key_len;
        let head = spec_u16_to_le_bytes((e.0.len() % 65536) as u16);
        let block = spec_u32_to_le_bytes(e.1.block_number);
        let slot = spec_u16_to_le_bytes(e.1.offset_number);
        assert(head.len() == 2 && block.len() == 4 && slot.len() == 2);
        assert forall|j: int| 0 <= j < key_len implies image[2 + j] == e.0[j] by {
            assert((head + e.0)[2 + j] == e.0[j]);
        }
        assert forall|j: int| 0 <= j < 4 implies image[2 + key_len + j] == block[j] by {
            assert((head + e.0 + block)[2 + key_len + j] == block[j]);
        }
        assert forall|j: int| 0 <= j < 2 implies image[6 + key_len + j] == slot[j] by {
            assert((head + e.0 + block + slot)[6 + key_len + j] == slot[j]);
        }
        assert(buf.subrange(start, at) =~= e.0);
        assert(buf.subrange(at, at + 4) =~= spec_u32_to_le_bytes(e.1.block_number));
        assert(buf.subrange(at + 4, at + 6) =~= spec_u16_to_le_bytes(e.1.offset_number));
        if k + 1 < n {
            lemma_entries_image_at(entries, n, (k + 1) as nat);
        }
        lemma_entries_at_image(buf, base, entries, (k + 1) as nat);
        assert(seq![e] + entries.subrange(k as int + 1, n as int) =~= entries.subrange(
            k as int,
            n as int,
        ));
    }
}

/// Within the image of the first `n` children, each child stands at four
/// times its number.
pub proof fn lemma_children_image_at(children: Seq<u32>, n: nat, k: nat)
    requires
        k < n,
    ensures
        children_image(children, n).len() == 4 * n,
        children_image(children, n).subrange(4 * (k as int), 4 * (k as int) + 4)
            == spec_u32_to_le_bytes(children[k as int]),
    decreases n,
{
    lemma_auto_spec_u32_to_from_le_bytes();
    lemma_children_image_len(children, (n - 1) as nat);
    let whole = children_image(children, n);
    let front = children_image(children, (n - 1) as nat);
    let at: int = 4 * (k as int);
    if k == n - 1 {
        assert(whole.subrange(at, at + 4) =~= spec_u32_to_le_bytes(children[k as int]));
    } else {
        lemma_children_image_at(children, (n - 1) as nat, k);
        assert(whole.subrange(at, at + 4) =~= front.subrange(at, at + 4));
    }
}

/// The image of `n` children is four times as long.
pub proof fn lemma_children_image_len(children: Seq<u32>, n: nat)
    ensures
        children_image(children, n).len() == 4 * n,
    decreases n,
{
    lemma_auto_spec_u32_to_from_le_bytes();
    if n > 0 {
        lemma_children_image_len(children, (n - 1) as nat);
    }
}

/// A reader that starts at the child `k` of an image of children finds the
/// children from `k` on.
pub proof fn lemma_children_at_image(buf: Seq<u8>, base: int, children: Seq<u32>, k: nat)
    requires
        0 <= base,
        k <= children.len(),
        buf.len() >= base + 4 * children.len(),
        buf.subrange(base, base + 4 * children.len()) == children_image(
            children,
            children.len(),
        ),
    ensures
        children_at(buf, base + 4 * k, (children.len() - k) as nat) == children.subrange(
            k as int,
            children.len() as int,
        ),
    decreases children.len() - k,
{
    let n = children.len();
    if k == n {
        assert(children.subrange(k as int, n as int) =~= Seq::<u32>::empty());
    } else {
        lemma_auto_spec_u32_to_from_le_bytes();
        lemma_children_image_at(children, n, k);
        let whole = children_image(children, n);
        let at: int = 4 * (k as int);
        assert(buf.subrange(base + at, base + at + 4) =~= whole.subrange(at, at + 4));
        lemma_children_at_image(buf, base, children, (k + 1) as nat);
        assert(seq![children[k as int]] + children.subrange(k as int + 1, n as int)
            =~= children.subrange(k as int, n as int));
    }
}

impl BTreePageView {
    /// Reading back the image of an inner page gives the page, as long as
    /// the counts of its entries and children and the lengths of its keys
    /// fit the sixteen bits that the image has for each.
    pub proof fn lemma_parse_inner_image(&self)
        requires
            !self.is_leaf,
            self.keys.len() <= 65535,
            self.children.len() <= 65535,
            forall|i: int| 0 <= i < self.keys.len() ==> (#[trigger] self.keys[i]).0.len() <= 65535,
        ensures
            self.image().len() >= 10,
            Self::parse(self.image()) == *self,
    {
        lemma_auto_spec_u16_to_from_le_bytes();
        lemma_auto_spec_u32_to_from_le_bytes();
        let buf = self.image();
        let keys_image = entries_image(self.keys, self.keys.len());
        let kids_image = children_image(self.children, self.children.len());
        lemma_children_image_len(self.children, self.children.len());
        let end: int = 12 + keys_image.len() as int;
        assert(buf.len() == end + 2 + kids_image.len());
        assert(buf[0] == flag_byte(self.is_leaf));
        assert(buf[1] == flag_byte(self.is_root));
        assert(buf.subrange(2, 6) =~= spec_u32_to_le_bytes(self.left_sibling));
        assert(buf.subrange(6, 10) =~= spec_u32_to_le_bytes(self.right_sibling));
        assert(buf.subrange(10, 12) =~= spec_u16_to_le_bytes((self.keys.len() % 65536) as u16));
        assert(buf.subrange(12, end) =~= keys_image);
        assert(buf.subrange(end, end + 2) =~= spec_u16_to_le_bytes(
            (self.children.len() % 65536) as u16,
        ));
        assert(buf.subrange(end + 2, end + 2 + 4 * self.children.len()) =~= kids_image);
        lemma_entries_at_image(buf, 12, self.keys, 0);
        assert(self.keys.subrange(0, self.keys.len() as int) =~= self.keys);
        lemma_children_at_image(buf, end + 2, self.children, 0);
        assert(self.children.subrange(0, self.children.len() as int) =~= self.children);
        let parsed = Self::parse(buf);
        assert(parsed.keys == self.keys);
        assert(parsed.children == self.children);
    }
}

} // verus!
