//! The commands that a region has applied, as the engine receives them.

use vstd::prelude::*;
use crate::error::{RegionEpoch, RegionError};
use crate::event::{Row, RowKind, RowView};
use crate::ids::ObserveId;
use crate::keys::key_clone;
use crate::lock::{MiniLock, PendingLock, PendingLockView};
use crate::seqs::views;

verus! {

/// One command that a region has applied.
#[derive(Clone, Debug, PartialEq, Eq)]
pub enum Cmd {
    /// The store refused the command.
    Failed(RegionError),
    /// The command has split or merged the region; `current` is the epoch
    /// that the region has now.
    RegionChanged { current: RegionEpoch },
    /// Another command of the store's administration; it changes nothing
    /// that a subscriber sees.
    Admin,
    /// Changes of keys.
    Data(Vec<Row>),
}

pub enum CmdView {
    Failed(RegionError),
    RegionChanged { current: RegionEpoch },
    Admin,
    Data(Seq<RowView>),
}

impl View for Cmd {
    type V = CmdView;

    open spec fn view(&self) -> CmdView {
        match *self {
            Cmd::Failed(e) => CmdView::Failed(e),
            Cmd::RegionChanged { current } => CmdView::RegionChanged { current },
            Cmd::Admin => CmdView::Admin,
            Cmd::Data(rows) => CmdView::Data(views(rows@)),
        }
    }
}

/// The commands that a region has applied since the last batch, under
/// one observation epoch.
#[derive(Clone, Debug, PartialEq, Eq)]
pub struct CmdBatch {
    pub region_id: u64,
    pub observe_id: ObserveId,
    pub cmds: Vec<Cmd>,
    /// The bytes that the batch takes of the memory quota.
    pub size: usize,
}

pub struct CmdBatchView {
    pub region_id: u64,
    pub observe_id: ObserveId,
    pub cmds: Seq<CmdView>,
    pub size: usize,
}

impl View for CmdBatch {
    type V = CmdBatchView;

    open spec fn view(&self) -> CmdBatchView {
        CmdBatchView {
            region_id: self.region_id,
            observe_id: self.observe_id,
            cmds: views(self.cmds@),
            size: self.size,
        }
    }
}

/// What a row does to the lock table: a prewrite locks its key, a commit
/// or a rollback releases it.
pub open spec fn lock_change_of(row: RowView) -> PendingLockView {
    match row.kind {
        RowKind::Prewrite => PendingLockView::Track {
            key: row.key,
            start_ts: MiniLock { ts: row.start_ts },
        },
        RowKind::Commit => PendingLockView::Untrack { key: row.key },
        RowKind::Rollback => PendingLockView::Untrack { key: row.key },
    }
}

pub fn lock_change(row: &Row) -> (r: PendingLock)
    ensures
        r@ == lock_change_of(row@),
{
    match row.kind {
        RowKind::Prewrite => PendingLock::Track {
            key: key_clone(&row.key),
            start_ts: MiniLock { ts: row.start_ts },
        },
        RowKind::Commit => PendingLock::Untrack { key: key_clone(&row.key) },
        RowKind::Rollback => PendingLock::Untrack { key: key_clone(&row.key) },
    }
}

} // verus!
