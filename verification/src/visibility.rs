//! The visibility predicates: for a tuple, a snapshot and the reader's own
//! transaction, whether the reader sees the tuple.

use crate::constants::{
    HEAP_XMAX_COMMITTED, HEAP_XMAX_INVALID, HEAP_XMAX_IS_LOCKED_ONLY, HEAP_XMIN_COMMITTED,
    HEAP_XMIN_INVALID,
};
use crate::heap_tuple::{HeapTuple, HeapTupleHeaderData};
use crate::types::{CommandId, HeapTupleStatus, Snapshot, TransactionId, VisibilityMode};
use vstd::prelude::*;

verus! {

/// The creation test of a snapshot, the reader's own writes aside: the
/// creator is in the snapshot's range and either hinted as committed, or
/// neither hinted as aborted nor in progress at capture; or the creator is
/// older than the range and not hinted as aborted. A creator past the range
/// is in the snapshot's future.
pub open spec fn created_in_view(h: HeapTupleHeaderData, s: &Snapshot) -> bool {
    if s.in_range(h.t_xmin) {
        h.flag(HEAP_XMIN_COMMITTED) || (!h.flag(HEAP_XMIN_INVALID) && !s.in_xip(h.t_xmin))
    } else if h.t_xmin < s.xmin.0 {
        h.flag(HEAP_XMIN_COMMITTED) || !h.flag(HEAP_XMIN_INVALID)
    } else {
        false
    }
}

/// The obsolescence test of a snapshot, the reader's own deletes aside: no
/// deleter, or a deleter in the snapshot's future, leaves the tuple visible;
/// an older deleter hides it unless it is hinted as aborted and not as
/// committed; a deleter in the range hides it unless it is not hinted as
/// committed and is hinted as aborted or as a mere locker.
pub open spec fn not_obsoleted_in_view(h: HeapTupleHeaderData, s: &Snapshot) -> bool {
    if h.t_xmax == 0 {
        true
    } else if h.t_xmax >= s.xmax.0 {
        true
    } else if h.t_xmax < s.xmin.0 {
        !h.flag(HEAP_XMAX_COMMITTED) && h.flag(HEAP_XMAX_INVALID)
    } else {
        !h.flag(HEAP_XMAX_COMMITTED) && (h.flag(HEAP_XMAX_INVALID) || h.flag(
            HEAP_XMAX_IS_LOCKED_ONLY,
        ))
    }
}

/// The creation test under MVCC: the reader sees its own writes, and
/// otherwise what the snapshot's creation test admits.
pub open spec fn creation_visible(h: HeapTupleHeaderData, s: &Snapshot, cur_xid: u32) -> bool {
    h.t_xmin == cur_xid || created_in_view(h, s)
}

/// The obsolescence test under MVCC: a tuple that the reader itself marked
/// is visible only if the mark is a mere lock; otherwise the snapshot's
/// obsolescence test decides.
pub open spec fn not_obsoleted(h: HeapTupleHeaderData, s: &Snapshot, cur_xid: u32) -> bool {
    if h.t_xmax == 0 {
        true
    } else if h.t_xmax == cur_xid {
        h.flag(HEAP_XMAX_IS_LOCKED_ONLY)
    } else {
        not_obsoleted_in_view(h, s)
    }
}

/// Visibility under MVCC: both tests pass.
pub open spec fn mvcc_visible(h: HeapTupleHeaderData, s: &Snapshot, cur_xid: u32) -> bool {
    creation_visible(h, s, cur_xid) && not_obsoleted(h, s, cur_xid)
}

/// Visibility under ANY: every tuple but one whose deleter is hinted as
/// committed.
pub open spec fn any_visible(h: HeapTupleHeaderData) -> bool {
    !(h.t_xmax != 0 && h.flag(HEAP_XMAX_COMMITTED))
}

/// Visibility under SELF: the reader's own writes of later commands are
/// hidden; a tuple that the reader itself marked is visible only if the mark
/// is a mere lock; any other tuple is visible unless its deleter is hinted as
/// committed.
pub open spec fn self_visible(h: HeapTupleHeaderData, cur_xid: u32, cur_cid: u32) -> bool {
    if h.t_xmin == cur_xid && h.t_cid > cur_cid {
        false
    } else if h.t_xmax == cur_xid {
        h.flag(HEAP_XMAX_IS_LOCKED_ONLY)
    } else if h.t_xmax == 0 {
        true
    } else {
        !h.flag(HEAP_XMAX_COMMITTED)
    }
}

/// Visibility under STABLE: as under MVCC, but with no transaction treated
/// as the reader's own.
pub open spec fn stable_visible(h: HeapTupleHeaderData, s: &Snapshot) -> bool {
    created_in_view(h, s) && not_obsoleted_in_view(h, s)
}

/// Visibility under the mode that the snapshot names.
pub open spec fn visible(h: HeapTupleHeaderData, s: &Snapshot, cur_xid: u32) -> bool {
    match s.mode {
        VisibilityMode::Any => any_visible(h),
        VisibilityMode::Self_ => self_visible(h, cur_xid, s.curcid.0),
        VisibilityMode::Stable => stable_visible(h, s),
        VisibilityMode::MVCC => mvcc_visible(h, s, cur_xid),
    }
}

/// The header after the commit state of its creator and deleter was cached:
/// a committed transaction sets the committed hint and clears the invalid
/// one, an aborted one the reverse, any other state leaves the pair alone.
pub open spec fn with_hints(
    h: HeapTupleHeaderData,
    xmin_status: HeapTupleStatus,
    xmax_status: HeapTupleStatus,
) -> HeapTupleHeaderData {
    let h1 = match xmin_status {
        HeapTupleStatus::Comitted => h.with_flag(HEAP_XMIN_COMMITTED, true).with_flag(
            HEAP_XMIN_INVALID,
            false,
        ),
        HeapTupleStatus::Aborted => h.with_flag(HEAP_XMIN_COMMITTED, false).with_flag(
            HEAP_XMIN_INVALID,
            true,
        ),
        _ => h,
    };
    match xmax_status {
        HeapTupleStatus::Comitted => h1.with_flag(HEAP_XMAX_COMMITTED, true).with_flag(
            HEAP_XMAX_INVALID,
            false,
        ),
        HeapTupleStatus::Aborted => h1.with_flag(HEAP_XMAX_COMMITTED, false).with_flag(
            HEAP_XMAX_INVALID,
            true,
        ),
        _ => h1,
    }
}

/// What the header says of the tuple's state relative to a snapshot.
pub open spec fn temporal_status(h: HeapTupleHeaderData, s: &Snapshot) -> HeapTupleStatus {
    if h.t_xmin == 0 {
        HeapTupleStatus::Dead
    } else if h.t_xmax != 0 {
        HeapTupleStatus::Modified
    } else if s.in_range(h.t_xmin) {
        HeapTupleStatus::InProgress
    } else if h.t_xmin < s.xmin.0 && h.flag(HEAP_XMIN_COMMITTED) {
        HeapTupleStatus::Live
    } else if h.t_xmin < s.xmin.0 && h.flag(HEAP_XMIN_INVALID) {
        HeapTupleStatus::Dead
    } else {
        HeapTupleStatus::Unknown
    }
}

/// A transaction sees, under MVCC, the tuple that it created and that
/// nobody has marked since, whatever its snapshot holds.
pub proof fn lemma_own_insert_visible(h: HeapTupleHeaderData, s: &Snapshot, cur_xid: u32)
    requires
        h.t_xmin == cur_xid,
        h.t_xmax == 0,
    ensures
        mvcc_visible(h, s, cur_xid),
{
}

/// Under MVCC a reader does not see a tuple of another transaction that was
/// in progress when the snapshot was captured, or began after it, as long as
/// no hint calls the creator committed.
pub proof fn lemma_uncommitted_insert_hidden(h: HeapTupleHeaderData, s: &Snapshot, cur_xid: u32)
    requires
        s.wf(),
        h.t_xmin != cur_xid,
        !h.flag(HEAP_XMIN_COMMITTED),
        s.in_xip(h.t_xmin) || h.t_xmin >= s.xmax.0,
    ensures
        !mvcc_visible(h, s, cur_xid),
{
    if s.in_xip(h.t_xmin) {
        let i = choose|i: int| 0 <= i < s.xip@.len() && s.xip@[i] == TransactionId(h.t_xmin);
        assert(s.in_range(s.xip@[i].0));
    }
}

/// The visibility predicates. They read the tuple's header and the snapshot
/// and nothing else, and they never fail.
pub struct Visibility;

impl Visibility {
    pub fn heap_tuple_satisfies_mvcc(
        heap_tuple: &HeapTuple,
        snapshot: &Snapshot,
        cur_xid: TransactionId,
    ) -> (r: bool)
        ensures
            r == mvcc_visible(heap_tuple@.header, snapshot, cur_xid.0),
    {
        if !Self::heap_tuple_satisfiesvisibility(heap_tuple, snapshot, cur_xid) {
            return false;
        }
        if !Self::heap_txns_satisfies_update(heap_tuple, snapshot, cur_xid) {
            return false;
        }
        true
    }

    fn created_before(heap_tuple: &HeapTuple, snapshot: &Snapshot) -> (r: bool)
        ensures
            r == created_in_view(heap_tuple@.header, snapshot),
    {
        let xmin = heap_tuple.xmin();
        if xmin.0 >= snapshot.xmin.0 && xmin.0 < snapshot.xmax.0 {
            if heap_tuple.header.xmin_committed() {
                return true;
            }
            if heap_tuple.header.xmin_invalid() {
                return false;
            }
            if snapshot.xip_contains(xmin) {
                return false;
            }
            return true;
        }
        if xmin.0 < snapshot.xmin.0 {
            if heap_tuple.header.xmin_committed() {
                return true;
            }
            if heap_tuple.header.xmin_invalid() {
                return false;
            }
            return true;
        }
        false
    }

    fn not_obsoleted_before(heap_tuple: &HeapTuple, snapshot: &Snapshot) -> (r: bool)
        ensures
            r == not_obsoleted_in_view(heap_tuple@.header, snapshot),
    {
        let xmax = heap_tuple.xmax();
        if xmax.is_invalid() {
            return true;
        }
        if xmax.0 >= snapshot.xmax.0 {
            return true;
        }
        if xmax.0 < snapshot.xmin.0 {
            if heap_tuple.header.xmax_committed() {
                return false;
            }
            if heap_tuple.header.xmax_invalid() {
                return true;
            }
            return false;
        }
        if heap_tuple.header.xmax_committed() {
            return false;
        }
        if heap_tuple.header.xmax_invalid() {
            return true;
        }
        if heap_tuple.header.xmax_is_locked_only() {
            return true;
        }
        false
    }

    fn heap_tuple_satisfiesvisibility(
        heap_tuple: &HeapTuple,
        snapshot: &Snapshot,
        cur_xid: TransactionId,
    ) -> (r: bool)
        ensures
            r == creation_visible(heap_tuple@.header, snapshot, cur_xid.0),
    {
        let xmin = heap_tuple.xmin();
        if xmin.0 == cur_xid.0 {
            return true;
        }
        Self::created_before(heap_tuple, snapshot)
    }

    fn heap_txns_satisfies_update(
        heap_tuple: &HeapTuple,
        snapshot: &Snapshot,
        cur_xid: TransactionId,
    ) -> (r: bool)
        ensures
            r == not_obsoleted(heap_tuple@.header, snapshot, cur_xid.0),
    {
        let xmax = heap_tuple.xmax();
        if xmax.is_invalid() {
            return true;
        }
        if xmax.0 == cur_xid.0 {
            if heap_tuple.header.xmax_is_locked_only() {
                return true;
            }
            return false;
        }
        Self::not_obsoleted_before(heap_tuple, snapshot)
    }

    pub fn heap_tuple_satisfies_any(heap_tuple: &HeapTuple) -> (r: bool)
        ensures
            r == any_visible(heap_tuple@.header),
    {
        let xmax = heap_tuple.xmax();
        if !xmax.is_invalid() {
            if heap_tuple.header.xmax_committed() {
                return false;
            }
        }
        true
    }

    pub fn heap_tuple_satisfies_self(
        heap_tuple: &HeapTuple,
        cur_xid: TransactionId,
        cur_cid: CommandId,
    ) -> (r: bool)
        ensures
            r == self_visible(heap_tuple@.header, cur_xid.0, cur_cid.0),
    {
        let xmin = heap_tuple.xmin();
        let xmax = heap_tuple.xmax();
        if xmin.0 == cur_xid.0 {
            let tuple_cid = heap_tuple.cid();
            if tuple_cid.0 > cur_cid.0 {
                return false;
            }
        }
        if xmax.0 == cur_xid.0 {
            if heap_tuple.header.xmax_is_locked_only() {
                return true;
            }
            return false;
        }
        if xmax.is_invalid() {
            return true;
        }
        if heap_tuple.header.xmax_committed() {
            return false;
        }
        true
    }

    pub fn heap_tuple_satisfies_stable(heap_tuple: &HeapTuple, snapshot: &Snapshot) -> (r: bool)
        ensures
            r == stable_visible(heap_tuple@.header, snapshot),
    {
        if !Self::created_before(heap_tuple, snapshot) {
            return false;
        }
        Self::not_obsoleted_before(heap_tuple, snapshot)
    }

    /// Visibility under the mode that the snapshot names.
    pub fn satisfies(heap_tuple: &HeapTuple, snapshot: &Snapshot, cur_xid: TransactionId) -> (r:
        bool)
        ensures
            r == visible(heap_tuple@.header, snapshot, cur_xid.0),
    {
        match snapshot.mode {
            VisibilityMode::Any => Self::heap_tuple_satisfies_any(heap_tuple),
            VisibilityMode::Self_ => Self::heap_tuple_satisfies_self(
                heap_tuple,
                cur_xid,
                snapshot.curcid,
            ),
            VisibilityMode::Stable => Self::heap_tuple_satisfies_stable(heap_tuple, snapshot),
            VisibilityMode::MVCC => Self::heap_tuple_satisfies_mvcc(heap_tuple, snapshot, cur_xid),
        }
    }

    /// Caches the commit state of the tuple's creator and deleter in its
    /// hint bits. Nothing else of the tuple changes.
    pub fn set_hint_bits(
        heap_tuple: &mut HeapTuple,
        xmin_status: HeapTupleStatus,
        xmax_status: HeapTupleStatus,
    )
        ensures
            final(heap_tuple)@.header == with_hints(old(heap_tuple)@.header, xmin_status, xmax_status),
            final(heap_tuple)@.null_bitmap == old(heap_tuple)@.null_bitmap,
            final(heap_tuple)@.data == old(heap_tuple)@.data,
    {
        match xmin_status {
            HeapTupleStatus::Comitted => {
                heap_tuple.header.set_xmin_committed(true);
                heap_tuple.header.set_xmin_invalid(false);
            },
            HeapTupleStatus::Aborted => {
                heap_tuple.header.set_xmin_committed(false);
                heap_tuple.header.set_xmin_invalid(true);
            },
            _ => {},
        }
        match xmax_status {
            HeapTupleStatus::Comitted => {
                heap_tuple.header.set_xmax_committed(true);
                heap_tuple.header.set_xmax_invalid(false);
            },
            HeapTupleStatus::Aborted => {
                heap_tuple.header.set_xmax_committed(false);
                heap_tuple.header.set_xmax_invalid(true);
            },
            _ => {},
        }
    }

    pub fn get_temporal(heap_tuple: &HeapTuple, snapshot: &Snapshot) -> (r: HeapTupleStatus)
        ensures
            r == temporal_status(heap_tuple@.header, snapshot),
    {
        let xmin = heap_tuple.xmin();
        let xmax = heap_tuple.xmax();
        if xmin.is_invalid() {
            return HeapTupleStatus::Dead;
        }
        if !xmax.is_invalid() {
            return HeapTupleStatus::Modified;
        }
        if xmin.0 >= snapshot.xmin.0 && xmin.0 < snapshot.xmax.0 {
            return HeapTupleStatus::InProgress;
        }
        if xmin.0 < snapshot.xmin.0 {
            if heap_tuple.header.xmin_committed() {
                return HeapTupleStatus::Live;
            }
            if heap_tuple.header.xmin_invalid() {
                return HeapTupleStatus::Dead;
            }
        }
        HeapTupleStatus::Unknown
    }
}

} // verus!
