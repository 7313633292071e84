//! The messages that drive the engine. They are handled one at a time, in
//! the order in which they arrive.

use vstd::prelude::*;
use crate::batch::{CmdBatch, CmdBatchView};
use crate::config::ConfigChange;
use crate::conn::{Conn, ConnView};
use crate::downstream::{Downstream, DownstreamView, KvApi};
use crate::error::{Error, RegionEpoch};
use crate::ids::{ConnId, DownstreamId, ObserveId, RequestId};
use crate::lock::{KeyLock, KeyLockView};
use crate::seqs::views;
use crate::timestamp::TimeStamp;
use crate::version::Version;

verus! {

/// What is to be taken out of the engine.
#[derive(Clone, Copy, Debug, PartialEq, Eq, Structural)]
pub enum Deregister {
    /// A connection, with all its subscriptions.
    Conn(ConnId),
    /// All subscriptions of one request.
    Request { conn_id: ConnId, request_id: RequestId },
    /// The subscription of one region by one request.
    Region { conn_id: ConnId, request_id: RequestId, region_id: u64 },
    /// One subscription, if it still is the one with the given id.
    Downstream {
        conn_id: ConnId,
        request_id: RequestId,
        region_id: u64,
        downstream_id: DownstreamId,
        err: Option<Error>,
    },
    /// A region, if it still is observed under the given epoch.
    Delegate { region_id: u64, observe_id: ObserveId, err: Error },
}

impl Deregister {
    pub open spec fn spec_kind(self) -> Seq<char> {
        match self {
            Deregister::Conn(..) => "conn"@,
            Deregister::Request { .. } => "request"@,
            Deregister::Region { .. } => "region"@,
            Deregister::Downstream { .. } => "downstream"@,
            Deregister::Delegate { .. } => "delegate"@,
        }
    }

    /// The name of the variant, as it is written to logs.
    pub fn kind(&self) -> (r: &'static str)
        ensures
            r@ == self.spec_kind(),
    {
        match self {
            Deregister::Conn(..) => "conn",
            Deregister::Request { .. } => "request",
            Deregister::Region { .. } => "region",
            Deregister::Downstream { .. } => "downstream",
            Deregister::Delegate { .. } => "delegate",
        }
    }
}

/// A question about the engine's state.
#[derive(Clone, Copy, Debug, PartialEq, Eq, Structural)]
pub enum Validate {
    /// What is known of the region.
    Region(u64),
    /// The capacity of the cache of old values.
    OldValueCache,
    /// How many subscriptions wait for their scan.
    UnresolvedRegion,
}

/// A client's request to watch a region.
#[derive(Clone, Copy, Debug, PartialEq, Eq, Default, Structural)]
pub struct ChangeDataRequest {
    /// The cluster that the client believes to talk to.
    pub cluster_id: u64,
    pub region_id: u64,
    pub request_id: u64,
    pub kv_api: KvApi,
    pub checkpoint_ts: u64,
    pub region_epoch: RegionEpoch,
}

/// A region as the store knows it.
#[derive(Clone, Copy, Debug, PartialEq, Eq, Default, Structural)]
pub struct Region {
    pub id: u64,
    pub region_epoch: RegionEpoch,
}

/// A message to the engine.
#[derive(Clone, Debug, PartialEq, Eq)]
pub enum Task {
    Register { request: ChangeDataRequest, downstream: Downstream },
    Deregister(Deregister),
    OpenConn { conn: Conn },
    SetConnVersion { conn_id: ConnId, version: Version, explicit_features: Vec<String> },
    MultiBatch { multi: Vec<CmdBatch> },
    MinTs { regions: Vec<u64>, min_ts: TimeStamp, current_ts: TimeStamp },
    FinishScanLocks { observe_id: ObserveId, region: Region, locks: Vec<KeyLock> },
    /// Arms the next resolution cycle. `elapsed_ms` is the time since the
    /// cycle before began.
    RegisterMinTsEvent { elapsed_ms: u64 },
    InitDownstream { region_id: u64, observe_id: ObserveId, downstream_id: DownstreamId },
    /// Old values of so many bytes have been taken over from a
    /// transaction.
    TxnExtra { size: usize },
    Validate(Validate),
    ChangeConfig(ConfigChange),
}

pub enum TaskView {
    Register { request: ChangeDataRequest, downstream: DownstreamView },
    Deregister(Deregister),
    OpenConn { conn: ConnView },
    SetConnVersion { conn_id: ConnId, version: Version, explicit_features: Seq<Seq<char>> },
    MultiBatch { multi: Seq<CmdBatchView> },
    MinTs { regions: Seq<u64>, min_ts: TimeStamp, current_ts: TimeStamp },
    FinishScanLocks { observe_id: ObserveId, region: Region, locks: Seq<KeyLockView> },
    RegisterMinTsEvent { elapsed_ms: u64 },
    InitDownstream { region_id: u64, observe_id: ObserveId, downstream_id: DownstreamId },
    TxnExtra { size: usize },
    Validate(Validate),
    ChangeConfig(ConfigChange),
}

impl View for Task {
    type V = TaskView;

    open spec fn view(&self) -> TaskView {
        match *self {
            Task::Register { request, downstream } => TaskView::Register {
                request,
                downstream: downstream@,
            },
            Task::Deregister(d) => TaskView::Deregister(d),
            Task::OpenConn { conn } => TaskView::OpenConn { conn: conn@ },
            Task::SetConnVersion { conn_id, version, explicit_features } => TaskView::SetConnVersion {
                conn_id,
                version,
                explicit_features: explicit_features@.map_values(|s: String| s@),
            },
            Task::MultiBatch { multi } => TaskView::MultiBatch { multi: views(multi@) },
            Task::MinTs { regions, min_ts, current_ts } => TaskView::MinTs {
                regions: regions@,
                min_ts,
                current_ts,
            },
            Task::FinishScanLocks { observe_id, region, locks } => TaskView::FinishScanLocks {
                observe_id,
                region,
                locks: views(locks@),
            },
            Task::RegisterMinTsEvent { elapsed_ms } => TaskView::RegisterMinTsEvent { elapsed_ms },
            Task::InitDownstream { region_id, observe_id, downstream_id } => TaskView::InitDownstream {
                region_id,
                observe_id,
                downstream_id,
            },
            Task::TxnExtra { size } => TaskView::TxnExtra { size },
            Task::Validate(v) => TaskView::Validate(v),
            Task::ChangeConfig(c) => TaskView::ChangeConfig(c),
        }
    }
}

impl TaskView {
    /// The tag under which the message goes into logs. A request for the
    /// next resolution cycle and a question have none.
    pub open spec fn kind(self) -> Option<Seq<char>> {
        match self {
            TaskView::Register { .. } => Some("register"@),
            TaskView::Deregister(..) => Some("deregister"@),
            TaskView::OpenConn { .. } => Some("open_conn"@),
            TaskView::SetConnVersion { .. } => Some("set_conn_version"@),
            TaskView::MultiBatch { .. } => Some("multi_batch"@),
            TaskView::MinTs { .. } => Some("mit_ts"@),
            TaskView::FinishScanLocks { .. } => Some("finish_scan_locks"@),
            TaskView::RegisterMinTsEvent { .. } => None,
            TaskView::InitDownstream { .. } => Some("init_downstream"@),
            TaskView::TxnExtra { .. } => Some("txn_extra"@),
            TaskView::Validate(..) => None,
            TaskView::ChangeConfig(..) => Some("change_config"@),
        }
    }
}

impl Task {
    /// The tag under which the message goes into logs, if it has one.
    /// The tags are those that readers of the logs know; that of a
    /// resolution cycle is spelled `mit_ts`.
    pub fn kind(&self) -> (r: Option<&'static str>)
        ensures
            match self@.kind() {
                Some(tag) => (r matches Some(s) && s@ == tag),
                None => r is None,
            },
    {
        match self {
            Task::Register { .. } => Some("register"),
            Task::Deregister(..) => Some("deregister"),
            Task::OpenConn { .. } => Some("open_conn"),
            Task::SetConnVersion { .. } => Some("set_conn_version"),
            Task::MultiBatch { .. } => Some("multi_batch"),
            Task::MinTs { .. } => Some("mit_ts"),
            Task::FinishScanLocks { .. } => Some("finish_scan_locks"),
            Task::RegisterMinTsEvent { .. } => None,
            Task::InitDownstream { .. } => Some("init_downstream"),
            Task::TxnExtra { .. } => Some("txn_extra"),
            Task::Validate(..) => None,
            Task::ChangeConfig(..) => Some("change_config"),
        }
    }
}

} // verus!
