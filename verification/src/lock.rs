//! The locks of a region that transactions hold and have not resolved
//! yet. A region's resolved timestamp cannot pass the least of them.

use vstd::prelude::*;
use crate::error::{Error, RegionEpoch};
use crate::keys::key_eq;
use crate::seqs::{first_index, is_first, lemma_first_index_absent, lemma_first_index_found, views};
use crate::timestamp::TimeStamp;

verus! {

/// What the tracker keeps of a lock: the start timestamp of the
/// transaction that holds it.
#[derive(Clone, Copy, Debug, PartialEq, Eq, Structural)]
pub struct MiniLock {
    pub ts: TimeStamp,
}

impl MiniLock {
    pub fn from_ts(ts: TimeStamp) -> (r: MiniLock)
        ensures
            r.ts == ts,
    {
        MiniLock { ts }
    }
}

/// A locked key with its lock.
#[derive(Clone, Debug, PartialEq, Eq)]
pub struct KeyLock {
    pub key: Vec<u8>,
    pub lock: MiniLock,
}

pub struct KeyLockView {
    pub key: Seq<u8>,
    pub lock: MiniLock,
}

impl View for KeyLock {
    type V = KeyLockView;

    open spec fn view(&self) -> KeyLockView {
        KeyLockView { key: self.key@, lock: self.lock }
    }
}

/// A change of the lock table that came in while the table was being
/// read from the store.
#[derive(Clone, Debug, PartialEq, Eq)]
pub enum PendingLock {
    Track { key: Vec<u8>, start_ts: MiniLock },
    Untrack { key: Vec<u8> },
}

pub enum PendingLockView {
    Track { key: Seq<u8>, start_ts: MiniLock },
    Untrack { key: Seq<u8> },
}

impl View for PendingLock {
    type V = PendingLockView;

    open spec fn view(&self) -> PendingLockView {
        match *self {
            PendingLock::Track { key, start_ts } => PendingLockView::Track { key: key@, start_ts },
            PendingLock::Untrack { key } => PendingLockView::Untrack { key: key@ },
        }
    }
}

/// The lock table of a region.
///
/// It is `Pending` until the first scan of the region is handed out,
/// `Preparing` while that scan reads the locks from the store, and
/// `Prepared` from then on.
#[derive(Clone, Debug, PartialEq, Eq)]
pub enum LockTracker {
    Pending,
    /// The changes that came in since the scan began, oldest first.
    Preparing(Vec<PendingLock>),
    /// The region's epoch at the time of the scan, and the locks that are
    /// held now.
    Prepared { epoch: RegionEpoch, locks: Vec<KeyLock> },
}

pub enum LockTrackerView {
    Pending,
    Preparing(Seq<PendingLockView>),
    Prepared { epoch: RegionEpoch, locks: Seq<KeyLockView> },
}

impl View for LockTracker {
    type V = LockTrackerView;

    open spec fn view(&self) -> LockTrackerView {
        match *self {
            LockTracker::Pending => LockTrackerView::Pending,
            LockTracker::Preparing(pending) => LockTrackerView::Preparing(views(pending@)),
            LockTracker::Prepared { epoch, locks } => LockTrackerView::Prepared {
                epoch,
                locks: views(locks@),
            },
        }
    }
}

/// Tells the locks of `key` from the others.
pub open spec fn locks_key(key: Seq<u8>) -> spec_fn(KeyLockView) -> bool {
    |l: KeyLockView| l.key == key
}

/// The table after `key` has been locked by a transaction that started at
/// `lock`. A key that is locked already stays as it is, if it is the same
/// transaction that holds it; another one is an error.
pub open spec fn track(locks: Seq<KeyLockView>, key: Seq<u8>, lock: MiniLock) -> Result<
    Seq<KeyLockView>,
    Error,
> {
    match first_index(locks, locks_key(key)) {
        Some(i) => if locks[i].lock.ts == lock.ts {
            Ok(locks)
        } else {
            Err(Error::Corrupted)
        },
        None => Ok(locks.push(KeyLockView { key, lock })),
    }
}

/// The table after the lock of `key` has gone.
pub open spec fn untrack(locks: Seq<KeyLockView>, key: Seq<u8>) -> Seq<KeyLockView> {
    match first_index(locks, locks_key(key)) {
        Some(i) => locks.remove(i),
        None => locks,
    }
}

/// The table after one change.
pub open spec fn apply_change(locks: Seq<KeyLockView>, change: PendingLockView) -> Result<
    Seq<KeyLockView>,
    Error,
> {
    match change {
        PendingLockView::Track { key, start_ts } => track(locks, key, start_ts),
        PendingLockView::Untrack { key } => Ok(untrack(locks, key)),
    }
}

/// The table after the changes, oldest first; the first error ends it.
pub open spec fn apply_changes(locks: Seq<KeyLockView>, changes: Seq<PendingLockView>) -> Result<
    Seq<KeyLockView>,
    Error,
>
    decreases changes.len(),
{
    if changes.len() == 0 {
        Ok(locks)
    } else {
        match apply_changes(locks, changes.drop_last()) {
            Ok(l) => apply_change(l, changes.last()),
            Err(e) => Err(e),
        }
    }
}

/// The least start timestamp among the locks, if there is a lock.
pub open spec fn min_lock_ts(locks: Seq<KeyLockView>) -> Option<u64>
    decreases locks.len(),
{
    if locks.len() == 0 {
        None
    } else {
        match min_lock_ts(locks.drop_last()) {
            Some(m) => if locks.last().lock.ts.0 < m {
                Some(locks.last().lock.ts.0)
            } else {
                Some(m)
            },
            None => Some(locks.last().lock.ts.0),
        }
    }
}

impl LockTrackerView {
    /// The tracker after the first scan of the region has been handed
    /// out.
    pub open spec fn init(self) -> LockTrackerView {
        match self {
            LockTrackerView::Pending => LockTrackerView::Preparing(Seq::empty()),
            _ => self,
        }
    }

    /// The tracker after a change of the lock table. A tracker that is
    /// preparing keeps the change for later; one that is pending cannot
    /// take it.
    pub open spec fn change(self, change: PendingLockView) -> Result<LockTrackerView, Error> {
        match self {
            LockTrackerView::Pending => Err(Error::Corrupted),
            LockTrackerView::Preparing(pending) => Ok(
                LockTrackerView::Preparing(pending.push(change)),
            ),
            LockTrackerView::Prepared { epoch, locks } => match apply_change(locks, change) {
                Ok(l) => Ok(LockTrackerView::Prepared { epoch, locks: l }),
                Err(e) => Err(e),
            },
        }
    }

    /// The tracker after the scan has read `scanned` from the store, at
    /// region epoch `epoch`: it holds what was read, with the changes
    /// that came in meanwhile. A tracker that is prepared already stays
    /// as it is.
    pub open spec fn finish(self, epoch: RegionEpoch, scanned: Seq<KeyLockView>) -> Result<
        LockTrackerView,
        Error,
    > {
        match self {
            LockTrackerView::Pending => Ok(LockTrackerView::Prepared { epoch, locks: scanned }),
            LockTrackerView::Preparing(pending) => match apply_changes(scanned, pending) {
                Ok(l) => Ok(LockTrackerView::Prepared { epoch, locks: l }),
                Err(e) => Err(e),
            },
            LockTrackerView::Prepared { .. } => Ok(self),
        }
    }
}

fn lock_position(locks: &Vec<KeyLock>, key: &Vec<u8>) -> (r: Option<usize>)
    ensures
        match r {
            Some(i) => first_index(views(locks@), locks_key(key@)) == Some(i as int) && i
                < locks.len(),
            None => first_index(views(locks@), locks_key(key@)) == None::<int>,
        },
{
    let mut i: usize = 0;
    while i < locks.len()
        invariant
            i <= locks.len(),
            forall|j: int| 0 <= j < i ==> !locks_key(key@)(#[trigger] views(locks@)[j]),
        decreases locks.len() - i,
    {
        if key_eq(&locks[i].key, key) {
            proof {
                assert(views(locks@)[i as int] == locks@[i as int]@);
                assert(is_first(views(locks@), locks_key(key@), i as int));
                lemma_first_index_found(views(locks@), locks_key(key@), i as int);
            }
            return Some(i);
        }
        assert(views(locks@)[i as int] == locks@[i as int]@);
        i += 1;
    }
    proof {
        lemma_first_index_absent(views(locks@), locks_key(key@));
    }
    None
}

/// Applies one change to a lock table. On an error the table is as it
/// was.
fn apply_to_locks(locks: &mut Vec<KeyLock>, change: PendingLock) -> (r: Result<(), Error>)
    ensures
        match apply_change(views(old(locks)@), change@) {
            Ok(l) => r == Ok::<(), Error>(()) && views(final(locks)@) == l,
            Err(e) => r == Err::<(), Error>(e) && views(final(locks)@) == views(old(locks)@),
        },
{
    match change {
        PendingLock::Track { key, start_ts } => {
            match lock_position(locks, &key) {
                Some(i) => {
                    assert(views(locks@)[i as int] == locks@[i as int]@);
                    if locks[i].lock.ts.0 == start_ts.ts.0 {
                        Ok(())
                    } else {
                        Err(Error::Corrupted)
                    }
                },
                None => {
                    let entry = KeyLock { key, lock: start_ts };
                    locks.push(entry);
                    assert(views(locks@) =~= views(old(locks)@).push(entry@));
                    Ok(())
                },
            }
        },
        PendingLock::Untrack { key } => {
            match lock_position(locks, &key) {
                Some(i) => {
                    locks.remove(i);
                    assert(views(locks@) =~= views(old(locks)@).remove(i as int));
                    Ok(())
                },
                None => Ok(()),
            }
        },
    }
}

impl LockTracker {
    /// Begins to keep changes for a scan, and says whether it did: only
    /// a pending tracker does.
    pub fn init(&mut self) -> (r: bool)
        ensures
            final(self)@ == old(self)@.init(),
            r == (old(self)@ == LockTrackerView::Pending),
    {
        match self {
            LockTracker::Pending => {
                *self = LockTracker::Preparing(Vec::new());
                assert(views(Seq::<PendingLock>::empty()) =~= Seq::<PendingLockView>::empty());
                true
            },
            _ => false,
        }
    }

    /// Takes a change of the lock table. On an error the tracker is as it
    /// was.
    pub fn change(&mut self, change: PendingLock) -> (r: Result<(), Error>)
        ensures
            match old(self)@.change(change@) {
                Ok(t) => r == Ok::<(), Error>(()) && final(self)@ == t,
                Err(e) => r == Err::<(), Error>(e) && final(self)@ == old(self)@,
            },
    {
        match self {
            LockTracker::Pending => Err(Error::Corrupted),
            LockTracker::Preparing(pending) => {
                let ghost before = pending@;
                pending.push(change);
                assert(views(pending@) =~= views(before).push(change@));
                Ok(())
            },
            LockTracker::Prepared { epoch, locks } => apply_to_locks(locks, change),
        }
    }

    /// Installs the locks that the scan has read.
    #[verifier::loop_isolation(false)]
    pub fn finish(&mut self, epoch: RegionEpoch, scanned: Vec<KeyLock>) -> (r: Result<(), Error>)
        ensures
            match old(self)@.finish(epoch, views(scanned@)) {
                Ok(t) => r == Ok::<(), Error>(()) && final(self)@ == t,
                Err(e) => r == Err::<(), Error>(e) && final(self)@ == old(self)@,
            },
    {
        let mut locks = scanned;
        match self {
            LockTracker::Pending => {},
            LockTracker::Preparing(pending) => {
                let mut i: usize = 0;
                while i < pending.len()
                    invariant
                        i <= pending.len(),
                        apply_changes(views(scanned@), views(pending@).take(i as int)) == Ok::<
                            Seq<KeyLockView>,
                            Error,
                        >(views(locks@)),
                    decreases pending.len() - i,
                {
                    assert(views(pending@).take(i + 1).drop_last() =~= views(pending@).take(
                        i as int,
                    ));
                    assert(views(pending@).take(i + 1).last() == pending@[i as int]@);
                    let change = match &pending[i] {
                        PendingLock::Track { key, start_ts } => PendingLock::Track {
                            key: crate::keys::key_clone(key),
                            start_ts: *start_ts,
                        },
                        PendingLock::Untrack { key } => PendingLock::Untrack {
                            key: crate::keys::key_clone(key),
                        },
                    };
                    assert(change@ == pending@[i as int]@);
                    match apply_to_locks(&mut locks, change) {
                        Ok(()) => {},
                        Err(e) => {
                            proof {
                                lemma_apply_changes_error(views(scanned@), views(pending@), i + 1);
                            }
                            return Err(e);
                        },
                    }
                    i += 1;
                }
                assert(views(pending@).take(pending.len() as int) =~= views(pending@));
            },
            LockTracker::Prepared { .. } => {
                return Ok(());
            },
        }
        *self = LockTracker::Prepared { epoch, locks };
        Ok(())
    }

    /// The least start timestamp among the locks of a prepared tracker.
    pub fn min_ts(&self) -> (r: Option<u64>)
        ensures
            r == match self@ {
                LockTrackerView::Prepared { locks, .. } => min_lock_ts(locks),
                _ => None,
            },
    {
        match self {
            LockTracker::Prepared { locks, .. } => {
                let mut min: Option<u64> = None;
                let mut i: usize = 0;
                while i < locks.len()
                    invariant
                        i <= locks.len(),
                        min == min_lock_ts(views(locks@).take(i as int)),
                    decreases locks.len() - i,
                {
                    assert(views(locks@).take(i + 1).drop_last() =~= views(locks@).take(i as int));
                    assert(views(locks@).take(i + 1).last() == locks@[i as int]@);
                    let ts = locks[i].lock.ts.0;
                    min = match min {
                        Some(m) => if ts < m {
                            Some(ts)
                        } else {
                            Some(m)
                        },
                        None => Some(ts),
                    };
                    i += 1;
                }
                assert(views(locks@).take(locks.len() as int) =~= views(locks@));
                min
            },
            _ => None,
        }
    }

    pub fn is_prepared(&self) -> (r: bool)
        ensures
            r == (self@ is Prepared),
    {
        match self {
            LockTracker::Prepared { .. } => true,
            _ => false,
        }
    }
}

/// An error among the first `n` changes is the error of them all.
pub proof fn lemma_apply_changes_error(
    locks: Seq<KeyLockView>,
    changes: Seq<PendingLockView>,
    n: int,
)
    requires
        0 <= n <= changes.len(),
        apply_changes(locks, changes.take(n)) is Err,
    ensures
        apply_changes(locks, changes) == apply_changes(locks, changes.take(n)),
    decreases changes.len() - n,
{
    if n == changes.len() {
        assert(changes.take(n) =~= changes);
    } else {
        assert(changes.take(n + 1).drop_last() =~= changes.take(n));
        lemma_apply_changes_error(locks, changes, n + 1);
    }
}

/// No lock starts before the least start timestamp, and some lock starts
/// at it.
pub proof fn lemma_min_lock_ts(locks: Seq<KeyLockView>)
    ensures
        match min_lock_ts(locks) {
            Some(m) => (forall|i: int| 0 <= i < locks.len() ==> m <= (#[trigger] locks[i]).lock.ts.0)
                && exists|i: int| 0 <= i < locks.len() && (#[trigger] locks[i]).lock.ts.0 == m,
            None => locks.len() == 0,
        },
    decreases locks.len(),
{
    if locks.len() > 0 {
        let t = locks.drop_last();
        lemma_min_lock_ts(t);
        let m = min_lock_ts(locks).unwrap();
        assert forall|i: int| 0 <= i < locks.len() implies m <= (#[trigger] locks[i]).lock.ts.0 by {
            if i < t.len() {
                assert(t[i] == locks[i]);
            }
        }
        match min_lock_ts(t) {
            Some(mt) => {
                if locks.last().lock.ts.0 < mt {
                    assert(locks[locks.len() - 1].lock.ts.0 == m);
                } else {
                    let i = choose|i: int| 0 <= i < t.len() && (#[trigger] t[i]).lock.ts.0 == mt;
                    assert(t[i] == locks[i]);
                }
            },
            None => {
                assert(locks[locks.len() - 1].lock.ts.0 == m);
            },
        }
    }
}

} // verus!
