//! Admission of old values that a transaction hands over.

use vstd::prelude::*;
use crate::quota::MemoryQuota;
use crate::task::{Task, TaskView};

verus! {

/// Takes over the old values of transactions, as far as the memory quota
/// has room for them.
#[derive(Clone, Copy, Debug, Default, PartialEq, Eq, Structural)]
pub struct CdcTxnExtraScheduler {
    /// How many hand-overs were dropped for want of room.
    pub dropped: u64,
}

impl CdcTxnExtraScheduler {
    pub fn new() -> (r: CdcTxnExtraScheduler)
        ensures
            r.dropped == 0,
    {
        CdcTxnExtraScheduler { dropped: 0 }
    }

    /// Takes `size` bytes of the quota and returns the message that
    /// brings the old values to the engine. Where the quota has no room
    /// the old values are dropped: nothing is taken and nothing is
    /// returned, and the drop is counted.
    pub fn schedule(&mut self, quota: &mut MemoryQuota, size: usize) -> (task: Option<Task>)
        ensures
            *final(quota) == old(quota).spec_allocate(size),
            old(quota).fits(size) ==> final(self).dropped == old(self).dropped && (task matches Some(
                t,
            ) && t@ == (TaskView::TxnExtra { size })),
            !old(quota).fits(size) ==> task is None && final(self).dropped == if old(self).dropped
                < u64::MAX {
                (old(self).dropped + 1) as u64
            } else {
                u64::MAX
            },
    {
        match quota.allocate(size) {
            Ok(()) => Some(Task::TxnExtra { size }),
            Err(_) => {
                if self.dropped < u64::MAX {
                    self.dropped = self.dropped + 1;
                }
                None
            },
        }
    }
}

} // verus!
