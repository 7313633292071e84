//! The incremental scan of a region for one subscription, as far as it
//! talks to the engine: what it asks, what it delivers, and how it gives
//! up. The reading itself is done by the surroundings.

use vstd::prelude::*;
use crate::effect::{ScanTask, ScanTaskView};
use crate::error::Error;
use crate::lock::{KeyLock, KeyLockView};
use crate::seqs::views;
use crate::task::{Deregister, Region, Task, TaskView};

verus! {

/// A scan that has been handed out.
#[derive(Clone, Debug, PartialEq, Eq)]
pub struct Initializer {
    pub task: ScanTask,
    /// Whether it is this scan that reads the region's locks. It is not
    /// until the engine says so.
    pub build_resolver: bool,
}

pub struct InitializerView {
    pub task: ScanTaskView,
    pub build_resolver: bool,
}

impl View for Initializer {
    type V = InitializerView;

    open spec fn view(&self) -> InitializerView {
        InitializerView { task: self.task@, build_resolver: self.build_resolver }
    }
}

impl InitializerView {
    /// The message by which the scan reports to the engine.
    pub open spec fn init_downstream(self) -> TaskView {
        TaskView::InitDownstream {
            region_id: self.task.region_id,
            observe_id: self.task.observe_id,
            downstream_id: self.task.downstream_id,
        }
    }

    /// Whether a batch of so many entries and bytes is sent off before
    /// more is read.
    pub open spec fn batch_full(self, entries: usize, bytes: usize) -> bool {
        entries >= self.task.max_scan_batch_size || bytes >= self.task.max_scan_batch_bytes
    }

    /// What is taken out of the engine when the scan fails: the whole
    /// region if the scan was the one to read its locks or if the store
    /// has refused the region, else the subscription alone.
    pub open spec fn deregister_downstream(self, err: Error) -> Deregister {
        if self.build_resolver || err is Request {
            Deregister::Delegate {
                region_id: self.task.region_id,
                observe_id: self.task.observe_id,
                err,
            }
        } else {
            Deregister::Downstream {
                conn_id: self.task.conn_id,
                request_id: self.task.request_id,
                region_id: self.task.region_id,
                downstream_id: self.task.downstream_id,
                err: Some(err),
            }
        }
    }

    /// The message that delivers the locks that the scan has read, if it
    /// was the one to read them.
    pub open spec fn finish_scan_locks(self, region: Region, locks: Seq<KeyLockView>) -> Option<
        TaskView,
    > {
        if self.build_resolver {
            Some(TaskView::FinishScanLocks { observe_id: self.task.observe_id, region, locks })
        } else {
            None
        }
    }
}

impl Initializer {
    pub fn new(task: ScanTask) -> (r: Initializer)
        ensures
            r@ == (InitializerView { task: task@, build_resolver: false }),
    {
        Initializer { task, build_resolver: false }
    }

    /// The message by which the scan reports to the engine.
    pub fn init_downstream(&self) -> (r: Task)
        ensures
            r@ == self@.init_downstream(),
    {
        Task::InitDownstream {
            region_id: self.task.region_id,
            observe_id: self.task.observe_id,
            downstream_id: self.task.downstream_id,
        }
    }

    /// Takes the engine's answer, and says whether the scan goes on.
    pub fn on_scan_init(&mut self, build_resolver: bool, proceed: bool) -> (go: bool)
        ensures
            final(self)@ == (InitializerView { build_resolver, ..old(self)@ }),
            go == proceed,
    {
        self.build_resolver = build_resolver;
        proceed
    }

    pub fn batch_full(&self, entries: usize, bytes: usize) -> (r: bool)
        ensures
            r == self@.batch_full(entries, bytes),
    {
        entries >= self.task.max_scan_batch_size || bytes >= self.task.max_scan_batch_bytes
    }

    pub fn deregister_downstream(&self, err: Error) -> (r: Deregister)
        ensures
            r == self@.deregister_downstream(err),
    {
        let region_error = match err {
            Error::Request(_) => true,
            _ => false,
        };
        if self.build_resolver || region_error {
            Deregister::Delegate {
                region_id: self.task.region_id,
                observe_id: self.task.observe_id,
                err,
            }
        } else {
            Deregister::Downstream {
                conn_id: self.task.conn_id,
                request_id: self.task.request_id,
                region_id: self.task.region_id,
                downstream_id: self.task.downstream_id,
                err: Some(err),
            }
        }
    }

    pub fn finish_scan_locks(&self, region: Region, locks: Vec<KeyLock>) -> (r: Option<Task>)
        ensures
            match self@.finish_scan_locks(region, views(locks@)) {
                Some(t) => r matches Some(task) && task@ == t,
                None => r is None,
            },
    {
        if self.build_resolver {
            Some(Task::FinishScanLocks { observe_id: self.task.observe_id, region, locks })
        } else {
            None
        }
    }
}

} // verus!
