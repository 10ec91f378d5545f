//! Identifier value types and the snapshot a reader filters tuples through.

use vstd::prelude::*;
use vstd::std_specs::convert::FromSpecImpl;

verus! {

/// A transaction id. Zero is invalid, one is the bootstrap transaction, normal
/// ids start at two and grow; ids are ordered arithmetically.
#[derive(Debug, Clone, Copy, PartialEq, Eq, Structural, Hash, PartialOrd, Ord)]
pub struct TransactionId(pub u32);

impl TransactionId {
    pub fn invalid() -> (r: Self)
        ensures
            r.0 == 0,
    {
        Self(0)
    }

    pub fn bootstrap() -> (r: Self)
        ensures
            r.0 == 1,
    {
        Self(1)
    }

    pub fn first_normal() -> (r: Self)
        ensures
            r.0 == 2,
    {
        Self(2)
    }

    pub fn is_valid(&self) -> (r: bool)
        ensures
            r == (self.0 != 0),
    {
        self.0 != 0
    }

    pub fn is_invalid(&self) -> (r: bool)
        ensures
            r == (self.0 == 0),
    {
        self.0 == 0
    }

    /// Whether this id lies in the half-open interval `[xmin, xmax)`.
    pub fn is_in_progress(&self, xmin: TransactionId, xmax: TransactionId) -> (r: bool)
        ensures
            r == (xmin.0 <= self.0 < xmax.0),
    {
        self.0 >= xmin.0 && self.0 < xmax.0
    }

    /// An id alone carries no commit state: the answer is always `false`, and
    /// the transaction table is the place to ask.
    pub fn is_committed(&self) -> (r: bool)
        ensures
            !r,
    {
        false
    }
}

impl Default for TransactionId {
    fn default() -> (r: Self)
        ensures
            r.0 == 0,
    {
        Self::invalid()
    }
}

impl From<u32> for TransactionId {
    fn from(x: u32) -> (r: Self) {
        Self(x)
    }
}

impl FromSpecImpl<u32> for TransactionId {
    open spec fn obeys_from_spec() -> bool {
        true
    }

    open spec fn from_spec(x: u32) -> Self {
        TransactionId(x)
    }
}

impl From<TransactionId> for u32 {
    fn from(x: TransactionId) -> (r: Self) {
        x.0
    }
}

impl FromSpecImpl<TransactionId> for u32 {
    open spec fn obeys_from_spec() -> bool {
        true
    }

    open spec fn from_spec(x: TransactionId) -> Self {
        x.0
    }
}

/// A command id: distinguishes the statements of one transaction.
#[derive(Debug, Clone, Copy, PartialEq, Eq, Structural, Hash)]
pub struct CommandId(pub u32);

impl CommandId {
    pub fn invalid() -> (r: Self)
        ensures
            r.0 == 0,
    {
        Self(0)
    }
}

impl Default for CommandId {
    fn default() -> (r: Self)
        ensures
            r.0 == 0,
    {
        Self(0)
    }
}

/// The place of a tuple in a relation: a block and a one-based slot in it.
/// The pointer with both fields zero is invalid.
#[derive(Debug, Clone, Copy, PartialEq, Eq, Structural, Hash)]
pub struct ItemPointerData {
    pub block_number: u32,
    pub offset_number: u16,
}

impl ItemPointerData {
    pub fn invalid() -> (r: Self)
        ensures
            r.block_number == 0,
            r.offset_number == 0,
    {
        Self { block_number: 0, offset_number: 0 }
    }

    pub fn is_valid(&self) -> (r: bool)
        ensures
            r == (self.block_number != 0 || self.offset_number != 0),
    {
        self.block_number != 0 || self.offset_number != 0
    }

    pub fn is_invalid(&self) -> (r: bool)
        ensures
            r == (self.block_number == 0 && self.offset_number == 0),
    {
        !self.is_valid()
    }
}

impl Default for ItemPointerData {
    fn default() -> (r: Self)
        ensures
            r.block_number == 0,
            r.offset_number == 0,
    {
        Self::invalid()
    }
}

/// A block of a relation of a database.
#[derive(Debug, Clone, Copy, PartialEq, Eq, Structural, Hash)]
pub struct BlockId {
    pub db_node: u32,
    pub rel_node: u32,
    pub block_num: u32,
}

impl BlockId {
    pub fn new(db_node: u32, rel_node: u32, block_num: u32) -> (r: Self)
        ensures
            r.db_node == db_node,
            r.rel_node == rel_node,
            r.block_num == block_num,
    {
        Self { db_node, rel_node, block_num }
    }
}

impl Default for BlockId {
    fn default() -> (r: Self)
        ensures
            r.db_node == 0,
            r.rel_node == 0,
            r.block_num == 0,
    {
        Self { db_node: 0, rel_node: 0, block_num: 0 }
    }
}

/// An object id. Zero is invalid.
#[derive(Debug, Clone, Copy, PartialEq, Eq, Structural, Hash)]
pub struct Oid(pub u32);

impl Oid {
    pub fn invalid() -> (r: Self)
        ensures
            r.0 == 0,
    {
        Self(0)
    }
}

impl Default for Oid {
    fn default() -> (r: Self)
        ensures
            r.0 == 0,
    {
        Self(0)
    }
}

pub type RelationId = Oid;

pub type TablespaceId = Oid;

pub type DatabaseId = Oid;

/// The rule by which a snapshot decides what a reader sees.
#[derive(Debug, Clone, Copy, PartialEq, Eq, Structural)]
pub enum VisibilityMode {
    MVCC,
    Self_,
    Any,
    Stable,
}

/// A reader's captured view of the transaction table: the oldest transaction
/// in progress at capture (`xmin`), the next id to be assigned (`xmax`), the
/// ids in progress (`xip`), the reader's command id and the visibility mode.
#[derive(Debug, Clone, PartialEq, Eq)]
pub struct Snapshot {
    pub xmin: TransactionId,
    pub xmax: TransactionId,
    pub xip: Vec<TransactionId>,
    pub curcid: CommandId,
    pub mode: VisibilityMode,
}

/// The ids of a sequence of raw values.
pub open spec fn xids_of(raw: Seq<u32>) -> Seq<TransactionId> {
    raw.map_values(|x: u32| TransactionId(x))
}

impl Snapshot {
    pub fn new(xmin: u32, xmax: u32, xip: Vec<u32>, curcid: u32, mode: VisibilityMode) -> (r: Self)
        ensures
            r.xmin.0 == xmin,
            r.xmax.0 == xmax,
            r.xip@ == xids_of(xip@),
            r.curcid.0 == curcid,
            r.mode == mode,
    {
        let mut ids: Vec<TransactionId> = Vec::new();
        let mut i: usize = 0;
        while i < xip.len()
            invariant
                i <= xip.len(),
                ids@ == xids_of(xip@.subrange(0, i as int)),
            decreases xip.len() - i,
        {
            ids.push(TransactionId(xip[i]));
            assert(ids@ =~= xids_of(xip@.subrange(0, i + 1)));
            i += 1;
        }
        assert(xip@.subrange(0, i as int) =~= xip@);
        Self {
            xmin: TransactionId(xmin),
            xmax: TransactionId(xmax),
            xip: ids,
            curcid: CommandId(curcid),
            mode,
        }
    }

    pub fn invalid() -> (r: Self)
        ensures
            r.xmin.0 == 0,
            r.xmax.0 == 0,
            r.xip@.len() == 0,
            r.curcid.0 == 0,
            r.mode == VisibilityMode::MVCC,
    {
        Self {
            xmin: TransactionId::invalid(),
            xmax: TransactionId::invalid(),
            xip: Vec::new(),
            curcid: CommandId::invalid(),
            mode: VisibilityMode::MVCC,
        }
    }

    /// Whether `xid` lies in the snapshot's range `[xmin, xmax)`.
    pub fn contains(&self, xid: TransactionId) -> (r: bool)
        ensures
            r == self.in_range(xid.0),
    {
        xid.0 >= self.xmin.0 && xid.0 < self.xmax.0
    }

    /// `xid` lies in `[xmin, xmax)`.
    pub open spec fn in_range(&self, xid: u32) -> bool {
        self.xmin.0 <= xid < self.xmax.0
    }

    /// `xid` was in progress when the snapshot was captured.
    pub open spec fn in_xip(&self, xid: u32) -> bool {
        self.xip@.contains(TransactionId(xid))
    }

    /// The range is not inverted, and every id in progress lies in it.
    pub open spec fn wf(&self) -> bool {
        &&& self.xmin.0 <= self.xmax.0
        &&& forall|i: int| 0 <= i < self.xip@.len() ==> self.in_range(#[trigger] self.xip@[i].0)
    }

    /// Whether `xid` was in progress at capture.
    pub fn xip_contains(&self, xid: TransactionId) -> (r: bool)
        ensures
            r == self.in_xip(xid.0),
    {
        let mut i: usize = 0;
        while i < self.xip.len()
            invariant
                i <= self.xip.len(),
                forall|j: int| 0 <= j < i ==> self.xip@[j] != xid,
            decreases self.xip.len() - i,
        {
            if self.xip[i].0 == xid.0 {
                return true;
            }
            i += 1;
        }
        false
    }
}

/// What a tuple's header says of its state relative to a snapshot.
#[derive(Debug, Clone, Copy, PartialEq, Eq, Structural)]
pub enum HeapTupleStatus {
    Live,
    Dead,
    Comitted,
    Aborted,
    InProgress,
    Modified,
    Bad,
    Unknown,
}

#[derive(Debug, Clone, Copy, PartialEq, Eq, Structural)]
pub enum LockMode {
    NoLock,
    ForUpdate,
    ForNoKeyUpdate,
    ForShare,
    ForKeyShare,
}

#[derive(Debug, Clone, Copy, PartialEq, Eq, Structural)]
pub enum UpdateResult {
    Updated,
    Deleted,
    SelfModified,
    NoResult,
}

} // verus!
