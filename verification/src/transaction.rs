//! The transaction table: allocation of transaction and command ids, the
//! record of commits and aborts, and the capture of snapshots.

use crate::constants::{BOOTSTRAP_TRANSACTION_ID, FIRST_NORMAL_TRANSACTION_ID};
use crate::types::{xids_of, CommandId, Snapshot, TransactionId, VisibilityMode};
use std::collections::HashMap;
use vstd::prelude::*;

verus! {

/// `s` without every occurrence of `x`, order kept.
pub open spec fn without(s: Seq<u32>, x: u32) -> Seq<u32>
    decreases s.len(),
{
    if s.len() == 0 {
        s
    } else if s.last() == x {
        without(s.drop_last(), x)
    } else {
        without(s.drop_last(), x).push(s.last())
    }
}

/// The least element of `s`, or `top` where `s` has none below it.
pub open spec fn least(s: Seq<u32>, top: u32) -> u32
    decreases s.len(),
{
    if s.len() == 0 {
        top
    } else if s.last() < least(s.drop_last(), top) {
        s.last()
    } else {
        least(s.drop_last(), top)
    }
}

/// `without(s, x)` holds exactly the elements of `s` other than `x`.
pub proof fn lemma_without(s: Seq<u32>, x: u32)
    ensures
        !without(s, x).contains(x),
        forall|y: u32| y != x ==> (#[trigger] without(s, x).contains(y) <==> s.contains(y)),
    decreases s.len(),
{
    if s.len() > 0 {
        let front = s.drop_last();
        lemma_without(front, x);
        let w = without(front, x);
        if s.last() == x {
            assert forall|y: u32| y != x implies (#[trigger] without(s, x).contains(y)
                <==> s.contains(y)) by {
                if s.contains(y) {
                    let i = choose|i: int| 0 <= i < s.len() && s[i] == y;
                    assert(front[i] == y);
                    assert(front.contains(y));
                }
                if without(front, x).contains(y) {
                    assert(front.contains(y));
                    let i = choose|i: int| 0 <= i < front.len() && front[i] == y;
                    assert(s[i] == y);
                }
            }
        } else {
            let r = w.push(s.last());
            assert forall|y: u32| y != x implies (#[trigger] r.contains(y) <==> s.contains(y)) by {
                if s.contains(y) {
                    let i = choose|i: int| 0 <= i < s.len() && s[i] == y;
                    if i < front.len() {
                        assert(front[i] == y);
                        assert(front.contains(y));
                        assert(without(front, x).contains(y));
                        let j = choose|j: int| 0 <= j < w.len() && w[j] == y;
                        assert(r[j] == y);
                    } else {
                        assert(r[w.len() as int] == y);
                    }
                }
                if r.contains(y) {
                    let j = choose|j: int| 0 <= j < r.len() && r[j] == y;
                    if j < w.len() {
                        assert(w[j] == y);
                        assert(without(front, x).contains(y));
                        assert(front.contains(y));
                        let i = choose|i: int| 0 <= i < front.len() && front[i] == y;
                        assert(s[i] == y);
                    } else {
                        assert(s[s.len() - 1] == y);
                    }
                }
            }
            if r.contains(x) {
                let j = choose|j: int| 0 <= j < r.len() && r[j] == x;
                assert(w[j] == x);
            }
        }
    }
}

/// `least(s, top)` bounds every element of `s` from below, is at most `top`,
/// and is `top` or an element of `s`.
pub proof fn lemma_least(s: Seq<u32>, top: u32)
    ensures
        least(s, top) <= top,
        forall|i: int| 0 <= i < s.len() ==> least(s, top) <= #[trigger] s[i],
        least(s, top) == top || s.contains(least(s, top)),
    decreases s.len(),
{
    if s.len() > 0 {
        let front = s.drop_last();
        lemma_least(front, top);
        assert forall|i: int| 0 <= i < s.len() implies least(s, top) <= #[trigger] s[i] by {
            if i < front.len() {
                assert(front[i] == s[i]);
            }
        }
        if least(s, top) != top {
            if s.last() < least(front, top) {
                assert(s[s.len() - 1] == least(s, top));
            } else {
                let i = choose|i: int| 0 <= i < front.len() && front[i] == least(front, top);
                assert(s[i] == least(s, top));
            }
        }
    }
}

/// The state of the transaction table.
pub struct TransactionTable {
    /// The next transaction id to assign.
    pub next_xid: u32,
    /// The next command id to assign.
    pub next_cid: u32,
    /// The recorded outcomes: `true` for a commit, `false` for an abort.
    pub committed: Map<u32, bool>,
    /// The transactions in progress, in the order in which they began.
    pub in_progress: Seq<u32>,
    /// For each transaction in progress, the oldest transaction that was in
    /// progress when it began. No snapshot that it captures reaches below.
    pub floors: Map<u32, u32>,
}

impl TransactionTable {
    /// The table of a fresh engine.
    pub open spec fn initial() -> TransactionTable {
        TransactionTable {
            next_xid: FIRST_NORMAL_TRANSACTION_ID,
            next_cid: 1,
            committed: Map::empty(),
            in_progress: Seq::empty(),
            floors: Map::empty(),
        }
    }

    /// The oldest transaction that was in progress when `xid` began: what
    /// was recorded for it, or `xid` itself where nothing was.
    pub open spec fn floor(&self, xid: u32) -> u32 {
        if self.floors.contains_key(xid) {
            self.floors[xid]
        } else {
            xid
        }
    }

    /// Ids are handed out from the first normal id upward, every
    /// transaction in progress has an id that was handed out, and no
    /// transaction in progress is older than what was the oldest when
    /// another one of them began.
    pub open spec fn wf(&self) -> bool {
        &&& self.next_xid >= FIRST_NORMAL_TRANSACTION_ID
        &&& forall|i: int|
            0 <= i < self.in_progress.len() ==> FIRST_NORMAL_TRANSACTION_ID
                <= #[trigger] self.in_progress[i] < self.next_xid
        &&& forall|i: int, j: int|
            0 <= i < self.in_progress.len() && 0 <= j < self.in_progress.len() ==> self.floor(
                #[trigger] self.in_progress[i],
            ) <= #[trigger] self.in_progress[j]
    }

    /// Whether `xid` counts as committed: the invalid id never, the
    /// bootstrap id always, any other id if the table records a commit.
    pub open spec fn is_committed(&self, xid: u32) -> bool {
        if xid == 0 {
            false
        } else if xid == BOOTSTRAP_TRANSACTION_ID {
            true
        } else {
            self.committed.contains_key(xid) && self.committed[xid]
        }
    }

    /// No transaction with a recorded commit is in progress.
    pub open spec fn committed_not_in_progress(&self) -> bool {
        forall|x: u32|
            #![trigger self.committed.contains_key(x)]
            self.committed.contains_key(x) && self.committed[x] ==> !self.in_progress.contains(x)
    }

    /// Every recorded outcome belongs to an id that was handed out.
    pub open spec fn records_allocated(&self) -> bool {
        forall|x: u32| #[trigger] self.committed.contains_key(x) ==> x < self.next_xid
    }

    /// The table after a transaction began: it takes the next id, and the
    /// oldest transaction in progress, or itself where none is, is recorded
    /// as its floor.
    pub open spec fn began(&self) -> TransactionTable {
        TransactionTable {
            next_xid: (self.next_xid + 1) as u32,
            in_progress: self.in_progress.push(self.next_xid),
            floors: self.floors.insert(self.next_xid, self.horizon()),
            ..*self
        }
    }

    /// The table after `xid` ended with the outcome `outcome`.
    pub open spec fn ended(&self, xid: u32, outcome: bool) -> TransactionTable {
        TransactionTable {
            committed: self.committed.insert(xid, outcome),
            in_progress: without(self.in_progress, xid),
            floors: self.floors.remove(xid),
            ..*self
        }
    }

    /// The oldest transaction in progress, or the last id handed out where
    /// none is.
    pub open spec fn oldest(&self) -> u32 {
        if self.in_progress.len() == 0 {
            (self.next_xid - 1) as u32
        } else {
            least(self.in_progress, self.next_xid)
        }
    }

    /// The horizon below which no transaction is in progress: the oldest
    /// transaction in progress, or the next id to assign where none is.
    pub open spec fn horizon(&self) -> u32 {
        least(self.in_progress, self.next_xid)
    }

    /// Whether the versions that `xmax` obsoleted may be reclaimed: `xmax`
    /// is a committed transaction, and it is older than the floor of every
    /// transaction in progress, so that it precedes the lower bound of
    /// every snapshot that such a transaction can hold.
    pub open spec fn reclaimable(&self, xmax: u32) -> bool {
        &&& xmax != 0
        &&& self.is_committed(xmax)
        &&& forall|i: int|
            0 <= i < self.in_progress.len() ==> xmax < self.floor(#[trigger] self.in_progress[i])
    }

    /// Whether a transaction in progress can hold `snapshot`: some
    /// transaction in progress has its floor at or below the snapshot's
    /// lower bound.
    pub open spec fn may_be_held(&self, snapshot: &Snapshot) -> bool {
        exists|i: int|
            0 <= i < self.in_progress.len() && self.floor(#[trigger] self.in_progress[i])
                <= snapshot.xmin.0
    }

    /// What may be reclaimed precedes the lower bound of every snapshot
    /// that a transaction in progress can hold, and every transaction in
    /// progress.
    pub proof fn lemma_reclaimable(&self, xmax: u32, snapshot: &Snapshot)
        requires
            self.wf(),
            self.reclaimable(xmax),
        ensures
            self.may_be_held(snapshot) ==> xmax < snapshot.xmin.0,
            forall|j: int| 0 <= j < self.in_progress.len() ==> xmax < #[trigger] self.in_progress[j],
    {
        assert forall|j: int| 0 <= j < self.in_progress.len() implies xmax
            < #[trigger] self.in_progress[j] by {
            assert(self.floor(self.in_progress[j]) <= self.in_progress[j]);
        }
    }

    /// Whether `snapshot` is what a reader at command `cid` captures from
    /// this table: the next id to assign as upper bound, the oldest
    /// transaction in progress as lower bound, the transactions in
    /// progress, and the MVCC mode.
    pub open spec fn captured(&self, cid: u32, snapshot: &Snapshot) -> bool {
        &&& snapshot.xmax.0 == self.next_xid
        &&& snapshot.xmin.0 == self.oldest()
        &&& snapshot.xip@ == xids_of(self.in_progress)
        &&& snapshot.curcid.0 == cid
        &&& snapshot.mode == VisibilityMode::MVCC
    }

    /// A captured snapshot holds every transaction in progress within its
    /// bounds: each of them is in its list and below its upper bound, which
    /// is the next id to assign.
    pub proof fn lemma_captured(&self, cid: u32, snapshot: &Snapshot)
        requires
            self.wf(),
            self.captured(cid, snapshot),
        ensures
            snapshot.wf(),
            forall|xid: u32| #[trigger]
                self.in_progress.contains(xid) ==> snapshot.in_xip(xid) && xid < snapshot.xmax.0,
            forall|xid: u32| #[trigger]
                self.in_progress.contains(xid) ==> self.floor(xid) <= snapshot.xmin.0,
            self.in_progress.len() > 0 ==> self.may_be_held(snapshot),
            snapshot.xmax.0 == self.next_xid,
    {
        lemma_least(self.in_progress, self.next_xid);
        assert forall|xid: u32| #[trigger] self.in_progress.contains(xid) implies self.floor(xid)
            <= snapshot.xmin.0 by {
            let i = choose|i: int| 0 <= i < self.in_progress.len() && self.in_progress[i] == xid;
            let low = least(self.in_progress, self.next_xid);
            assert(self.floor(self.in_progress[i]) <= self.in_progress[i]);
            if low != self.next_xid {
                let j = choose|j: int| 0 <= j < self.in_progress.len() && self.in_progress[j] == low;
                assert(self.floor(self.in_progress[i]) <= self.in_progress[j]);
            }
        }
        if self.in_progress.len() > 0 {
            assert(self.in_progress.contains(self.in_progress[0]));
            assert(self.floor(self.in_progress[0]) <= snapshot.xmin.0);
        }
        assert forall|xid: u32| #[trigger] self.in_progress.contains(xid) implies snapshot.in_xip(
            xid,
        ) && xid < snapshot.xmax.0 by {
            let i = choose|i: int| 0 <= i < self.in_progress.len() && self.in_progress[i] == xid;
            assert(snapshot.xip@[i] == TransactionId(xid));
        }
        lemma_least(self.in_progress, self.next_xid);
        assert forall|k: int| 0 <= k < snapshot.xip@.len() implies snapshot.in_range(
            #[trigger] snapshot.xip@[k].0,
        ) by {
            assert(snapshot.xip@[k].0 == self.in_progress[k]);
        }
    }

    /// Ending a transaction keeps the table well formed, takes the
    /// transaction out of those in progress, and keeps commits and
    /// transactions in progress apart.
    pub proof fn lemma_ended(&self, xid: u32, outcome: bool)
        requires
            self.wf(),
        ensures
            self.ended(xid, outcome).wf(),
            !self.ended(xid, outcome).in_progress.contains(xid),
            forall|y: u32|
                y != xid ==> #[trigger] self.ended(xid, outcome).floor(y) == self.floor(y),
            forall|y: u32|
                y != xid ==> (#[trigger] self.ended(xid, outcome).in_progress.contains(y)
                    <==> self.in_progress.contains(y)),
            self.committed_not_in_progress() ==>
                self.ended(xid, outcome).committed_not_in_progress(),
            self.records_allocated() && xid < self.next_xid ==> self.ended(
                xid,
                outcome,
            ).records_allocated(),
    {
        let next = self.ended(xid, outcome);
        lemma_without(self.in_progress, xid);
        assert forall|i: int| 0 <= i < next.in_progress.len() implies FIRST_NORMAL_TRANSACTION_ID
            <= #[trigger] next.in_progress[i] < next.next_xid by {
            let y = next.in_progress[i];
            assert(next.in_progress.contains(y));
            assert(self.in_progress.contains(y));
            let j = choose|j: int| 0 <= j < self.in_progress.len() && self.in_progress[j] == y;
            assert(self.in_progress[j] == y);
        }
        assert forall|i: int, j: int|
            0 <= i < next.in_progress.len() && 0 <= j < next.in_progress.len() implies next.floor(
            #[trigger] next.in_progress[i],
        ) <= #[trigger] next.in_progress[j] by {
            let a = next.in_progress[i];
            let b = next.in_progress[j];
            assert(next.in_progress.contains(a));
            assert(next.in_progress.contains(b));
            assert(self.in_progress.contains(a));
            assert(self.in_progress.contains(b));
            let ia = choose|k: int| 0 <= k < self.in_progress.len() && self.in_progress[k] == a;
            let ib = choose|k: int| 0 <= k < self.in_progress.len() && self.in_progress[k] == b;
            assert(self.floor(self.in_progress[ia]) <= self.in_progress[ib]);
        }
        if self.committed_not_in_progress() {
            assert forall|x: u32|
                #![trigger next.committed.contains_key(x)]
                next.committed.contains_key(x) && next.committed[x] implies !next.in_progress.contains(
                x,
            ) by {
                if x != xid {
                    assert(self.committed.contains_key(x));
                }
            }
        }
    }

    /// Beginning a transaction keeps the table well formed; it keeps commits
    /// and transactions in progress apart as long as the id it hands out has
    /// no commit on record, which is so whenever every record belongs to an
    /// id handed out before.
    pub proof fn lemma_began(&self)
        requires
            self.wf(),
            self.next_xid < u32::MAX,
        ensures
            self.began().wf(),
            self.began().floor(self.next_xid) == self.horizon(),
            forall|y: u32|
                y != self.next_xid ==> #[trigger] self.began().floor(y) == self.floor(y),
            self.committed_not_in_progress() && !self.is_committed(self.next_xid)
                ==> self.began().committed_not_in_progress(),
            self.records_allocated() ==> !self.is_committed(self.next_xid)
                && self.began().records_allocated(),
    {
        let next = self.began();
        assert forall|i: int| 0 <= i < next.in_progress.len() implies FIRST_NORMAL_TRANSACTION_ID
            <= #[trigger] next.in_progress[i] < next.next_xid by {
            if i < self.in_progress.len() {
                assert(next.in_progress[i] == self.in_progress[i]);
            }
        }
        lemma_least(self.in_progress, self.next_xid);
        assert forall|i: int, j: int|
            0 <= i < next.in_progress.len() && 0 <= j < next.in_progress.len() implies next.floor(
            #[trigger] next.in_progress[i],
        ) <= #[trigger] next.in_progress[j] by {
            if i < self.in_progress.len() {
                assert(next.in_progress[i] == self.in_progress[i]);
                assert(self.floor(self.in_progress[i]) <= self.in_progress[i]);
                if j < self.in_progress.len() {
                    assert(next.in_progress[j] == self.in_progress[j]);
                }
            } else {
                if j < self.in_progress.len() {
                    assert(next.in_progress[j] == self.in_progress[j]);
                }
            }
        }
        if self.committed_not_in_progress() && !self.is_committed(self.next_xid) {
            assert forall|x: u32|
                #![trigger next.committed.contains_key(x)]
                next.committed.contains_key(x) && next.committed[x] implies !next.in_progress.contains(
                x,
            ) by {
                if next.in_progress.contains(x) {
                    let j = choose|j: int| 0 <= j < next.in_progress.len() && next.in_progress[j] == x;
                    if j < self.in_progress.len() {
                        assert(self.in_progress[j] == x);
                        assert(self.in_progress.contains(x));
                    }
                }
            }
        }
    }
}

/// The transaction manager of an engine.
pub struct TransactionManager {
    current_xid: TransactionId,
    next_cid: CommandId,
    committed: HashMap<u32, bool>,
    in_progress: Vec<TransactionId>,
    floors: HashMap<u32, u32>,
}

impl View for TransactionManager {
    type V = TransactionTable;

    closed spec fn view(&self) -> TransactionTable {
        TransactionTable {
            next_xid: self.current_xid.0,
            next_cid: self.next_cid.0,
            committed: self.committed@,
            in_progress: self.in_progress@.map_values(|x: TransactionId| x.0),
            floors: self.floors@,
        }
    }
}

impl TransactionManager {
    pub open spec fn wf(&self) -> bool {
        self@.wf()
    }

    pub fn new() -> (r: Self)
        ensures
            r@ == TransactionTable::initial(),
            r.wf(),
            r@.committed_not_in_progress(),
            r@.records_allocated(),
    {
        let r = Self {
            current_xid: TransactionId(FIRST_NORMAL_TRANSACTION_ID),
            next_cid: CommandId(1),
            committed: HashMap::new(),
            in_progress: Vec::new(),
            floors: HashMap::new(),
        };
        assert(r@.in_progress =~= Seq::<u32>::empty());
        assert(r@.committed =~= Map::<u32, bool>::empty());
        r
    }

    /// Begins a transaction: hands out the next transaction id and records
    /// the transaction as in progress.
    pub fn begin(&mut self) -> (r: TransactionId)
        requires
            old(self).wf(),
            old(self)@.next_xid < u32::MAX,
        ensures
            r.0 == old(self)@.next_xid,
            final(self)@ == old(self)@.began(),
            final(self).wf(),
            old(self)@.committed_not_in_progress() && !old(self)@.is_committed(r.0) ==>
                final(self)@.committed_not_in_progress(),
            old(self)@.committed_not_in_progress() && old(self)@.records_allocated() ==>
                final(self)@.committed_not_in_progress(),
            old(self)@.records_allocated() ==> final(self)@.records_allocated(),
    {
        proof {
            self@.lemma_began();
        }
        let floor = self.horizon();
        let new_xid = self.current_xid.0;
        self.current_xid = TransactionId(new_xid + 1);
        self.in_progress.push(TransactionId(new_xid));
        self.floors.insert(new_xid, floor.0);
        assert(self@.in_progress =~= old(self)@.in_progress.push(new_xid));
        TransactionId(new_xid)
    }

    fn finish(&mut self, xid: TransactionId, outcome: bool)
        requires
            old(self).wf(),
        ensures
            final(self)@ == old(self)@.ended(xid.0, outcome),
            final(self).wf(),
    {
        proof {
            self@.lemma_ended(xid.0, outcome);
        }
        self.committed.insert(xid.0, outcome);
        self.floors.remove(&xid.0);
        assert(self.floors@ =~= old(self).floors@.remove(xid.0));
        let mut kept: Vec<TransactionId> = Vec::new();
        let mut i: usize = 0;
        let ghost before = old(self)@.in_progress;
        while i < self.in_progress.len()
            invariant
                i <= self.in_progress.len(),
                self.in_progress == old(self).in_progress,
                self.floors@ == old(self).floors@.remove(xid.0),
                self.committed@ == old(self).committed@.insert(xid.0, outcome),
                self.current_xid == old(self).current_xid,
                self.next_cid == old(self).next_cid,
                before == self.in_progress@.map_values(|x: TransactionId| x.0),
                kept@.map_values(|x: TransactionId| x.0) == without(
                    before.subrange(0, i as int),
                    xid.0,
                ),
            decreases self.in_progress.len() - i,
        {
            let x = self.in_progress[i];
            proof {
                assert(before.subrange(0, i + 1).drop_last() =~= before.subrange(0, i as int));
                assert(before.subrange(0, i + 1).last() == x.0);
            }
            if x.0 != xid.0 {
                kept.push(x);
                assert(kept@.map_values(|x: TransactionId| x.0) =~= without(
                    before.subrange(0, i as int),
                    xid.0,
                ).push(x.0));
            }
            i += 1;
        }
        assert(before.subrange(0, i as int) =~= before);
        self.in_progress = kept;
    }

    /// Records that `xid` committed and takes it out of the transactions in
    /// progress.
    pub fn commit(&mut self, xid: TransactionId)
        requires
            old(self).wf(),
        ensures
            final(self)@ == old(self)@.ended(xid.0, true),
            final(self).wf(),
            xid.0 >= FIRST_NORMAL_TRANSACTION_ID ==> final(self)@.is_committed(xid.0),
            !final(self)@.in_progress.contains(xid.0),
            old(self)@.committed_not_in_progress() ==> final(self)@.committed_not_in_progress(),
            old(self)@.records_allocated() && xid.0 < old(self)@.next_xid ==>
                final(self)@.records_allocated(),
    {
        proof {
            self@.lemma_ended(xid.0, true);
        }
        self.finish(xid, true);
    }

    /// Records that `xid` aborted and takes it out of the transactions in
    /// progress.
    pub fn abort(&mut self, xid: TransactionId)
        requires
            old(self).wf(),
        ensures
            final(self)@ == old(self)@.ended(xid.0, false),
            final(self).wf(),
            xid.0 >= FIRST_NORMAL_TRANSACTION_ID ==> !final(self)@.is_committed(xid.0),
            !final(self)@.in_progress.contains(xid.0),
            old(self)@.committed_not_in_progress() ==> final(self)@.committed_not_in_progress(),
            old(self)@.records_allocated() && xid.0 < old(self)@.next_xid ==>
                final(self)@.records_allocated(),
    {
        proof {
            self@.lemma_ended(xid.0, false);
        }
        self.finish(xid, false);
    }

    /// Hands out the next command id.
    pub fn get_cid(&mut self) -> (r: CommandId)
        requires
            old(self)@.next_cid < u32::MAX,
        ensures
            r.0 == old(self)@.next_cid,
            final(self)@ == (TransactionTable {
                next_cid: (old(self)@.next_cid + 1) as u32,
                ..old(self)@
            }),
    {
        let new_cid = self.next_cid;
        self.next_cid = CommandId(new_cid.0 + 1);
        new_cid
    }

    pub fn is_committed(&self, xid: TransactionId) -> (r: bool)
        ensures
            r == self@.is_committed(xid.0),
    {
        if xid.is_invalid() {
            return false;
        }
        if xid.0 == BOOTSTRAP_TRANSACTION_ID {
            return true;
        }
        match self.committed.get(&xid.0) {
            Some(outcome) => *outcome,
            None => false,
        }
    }

    pub fn is_in_progress(&self, xid: TransactionId) -> (r: bool)
        ensures
            r == self@.in_progress.contains(xid.0),
    {
        let ghost ids = self@.in_progress;
        let mut i: usize = 0;
        while i < self.in_progress.len()
            invariant
                i <= self.in_progress.len(),
                ids == self.in_progress@.map_values(|x: TransactionId| x.0),
                forall|j: int| 0 <= j < i ==> ids[j] != xid.0,
            decreases self.in_progress.len() - i,
        {
            if self.in_progress[i].0 == xid.0 {
                assert(ids[i as int] == xid.0);
                return true;
            }
            i += 1;
        }
        false
    }

    /// Whether the versions that `xmax` obsoleted may be reclaimed.
    pub fn is_reclaimable(&self, xmax: TransactionId) -> (r: bool)
        ensures
            r == self@.reclaimable(xmax.0),
    {
        if xmax.is_invalid() || !self.is_committed(xmax) {
            return false;
        }
        let ghost ids = self@.in_progress;
        let mut i: usize = 0;
        while i < self.in_progress.len()
            invariant
                i <= self.in_progress.len(),
                ids == self.in_progress@.map_values(|x: TransactionId| x.0),
                ids == self@.in_progress,
                forall|j: int| 0 <= j < i ==> xmax.0 < self@.floor(#[trigger] ids[j]),
            decreases self.in_progress.len() - i,
        {
            let floor = self.floor(self.in_progress[i]);
            if floor.0 <= xmax.0 {
                assert(!(xmax.0 < self@.floor(ids[i as int])));
                return false;
            }
            i += 1;
        }
        true
    }

    /// The oldest transaction that was in progress when `xid` began, or
    /// `xid` itself where nothing is on record for it.
    pub fn floor(&self, xid: TransactionId) -> (r: TransactionId)
        ensures
            r.0 == self@.floor(xid.0),
    {
        match self.floors.get(&xid.0) {
            Some(floor) => TransactionId(*floor),
            None => xid,
        }
    }

    /// The next transaction id to assign.
    pub fn current_xid(&self) -> (r: TransactionId)
        ensures
            r.0 == self@.next_xid,
    {
        self.current_xid
    }

    /// The next command id to assign.
    pub fn current_cid(&self) -> (r: CommandId)
        ensures
            r.0 == self@.next_cid,
    {
        self.next_cid
    }

    /// The horizon below which no transaction is in progress.
    pub fn horizon(&self) -> (r: TransactionId)
        ensures
            r.0 == self@.horizon(),
    {
        let ghost ids = self@.in_progress;
        let mut low = self.current_xid.0;
        let mut i: usize = 0;
        while i < self.in_progress.len()
            invariant
                i <= self.in_progress.len(),
                ids == self.in_progress@.map_values(|x: TransactionId| x.0),
                low == least(ids.subrange(0, i as int), self.current_xid.0),
            decreases self.in_progress.len() - i,
        {
            let x = self.in_progress[i].0;
            proof {
                assert(ids.subrange(0, i + 1).drop_last() =~= ids.subrange(0, i as int));
                assert(ids.subrange(0, i + 1).last() == x);
            }
            if x < low {
                low = x;
            }
            i += 1;
        }
        assert(ids.subrange(0, i as int) =~= ids);
        TransactionId(low)
    }

    /// Captures a snapshot for a reader at command `current_cid`: the next
    /// id to assign as upper bound, the oldest transaction in progress as
    /// lower bound (the last id handed out where none is in progress), and
    /// the transactions in progress, all read from the same state of the
    /// table. Every id in progress lies within the bounds.
    pub fn get_snapshot(&self, current_cid: CommandId) -> (r: Snapshot)
        requires
            self.wf(),
        ensures
            self@.captured(current_cid.0, &r),
            r.wf(),
    {
        let xid = self.current_xid;
        let xmin = if self.in_progress.len() == 0 {
            TransactionId(xid.0 - 1)
        } else {
            self.horizon()
        };
        let mut raw: Vec<u32> = Vec::new();
        let mut i: usize = 0;
        while i < self.in_progress.len()
            invariant
                i <= self.in_progress.len(),
                raw@ == self@.in_progress.subrange(0, i as int),
            decreases self.in_progress.len() - i,
        {
            raw.push(self.in_progress[i].0);
            assert(raw@ =~= self@.in_progress.subrange(0, i + 1));
            i += 1;
        }
        assert(raw@ =~= self@.in_progress);
        let r = Snapshot::new(xmin.0, xid.0, raw, current_cid.0, VisibilityMode::MVCC);
        proof {
            lemma_least(self@.in_progress, self@.next_xid);
            assert forall|k: int| 0 <= k < r.xip@.len() implies r.in_range(
                #[trigger] r.xip@[k].0,
            ) by {
                assert(r.xip@[k].0 == self@.in_progress[k]);
            }
        }
        r
    }
}

impl Default for TransactionManager {
    fn default() -> (r: Self)
        ensures
            r@ == TransactionTable::initial(),
            r.wf(),
    {
        Self::new()
    }
}

/// A transaction: its id and the command id it runs under.
#[derive(Debug, Clone, Copy)]
pub struct Transaction {
    pub xid: TransactionId,
    pub cid: CommandId,
}

impl Transaction {
    /// Begins a transaction at `manager` and takes a command id for it.
    pub fn new(manager: &mut TransactionManager) -> (r: Self)
        requires
            old(manager).wf(),
            old(manager)@.next_xid < u32::MAX,
            old(manager)@.next_cid < u32::MAX,
        ensures
            r.xid.0 == old(manager)@.next_xid,
            r.cid.0 == old(manager)@.next_cid,
            final(manager)@ == (TransactionTable {
                next_cid: (old(manager)@.next_cid + 1) as u32,
                ..old(manager)@.began()
            }),
            final(manager).wf(),
    {
        let xid = manager.begin();
        let cid = manager.get_cid();
        Self { xid, cid }
    }

    /// Commits the transaction at `manager`.
    pub fn commit(self, manager: &mut TransactionManager)
        requires
            old(manager).wf(),
        ensures
            final(manager)@ == old(manager)@.ended(self.xid.0, true),
            final(manager).wf(),
    {
        manager.commit(self.xid);
    }

    /// Aborts the transaction at `manager`.
    pub fn abort(self, manager: &mut TransactionManager)
        requires
            old(manager).wf(),
        ensures
            final(manager)@ == old(manager)@.ended(self.xid.0, false),
            final(manager).wf(),
    {
        manager.abort(self.xid);
    }

    pub fn get_cid(&self) -> (r: CommandId)
        ensures
            r == self.cid,
    {
        self.cid
    }

    pub fn xid(&self) -> (r: TransactionId)
        ensures
            r == self.xid,
    {
        self.xid
    }
}

} // verus!
