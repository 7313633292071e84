//! What the engine asks its surroundings to do. Every transition returns
//! its effects in the order in which they are to be carried out.

use vstd::prelude::*;
use crate::downstream::KvApi;
use crate::error::{EventError, RegionEpoch};
use crate::event::{CdcEvent, CdcEventView, Event, EventView};
use crate::ids::{ConnId, DownstreamId, ObserveId, RequestId};
use crate::keys::{ObservedRange, ObservedRangeView};
use crate::timestamp::TimeStamp;

verus! {

/// An incremental scan of a region for one subscription.
#[derive(Clone, Debug, PartialEq, Eq)]
pub struct ScanTask {
    pub region_id: u64,
    pub conn_id: ConnId,
    pub request_id: RequestId,
    pub downstream_id: DownstreamId,
    pub observe_id: ObserveId,
    /// Changes up to this timestamp are known to the client already.
    pub checkpoint_ts: TimeStamp,
    pub region_epoch: RegionEpoch,
    pub kv_api: KvApi,
    pub filter_loop: bool,
    pub observed_range: ObservedRange,
    pub max_scan_batch_bytes: usize,
    pub max_scan_batch_size: usize,
}

pub struct ScanTaskView {
    pub region_id: u64,
    pub conn_id: ConnId,
    pub request_id: RequestId,
    pub downstream_id: DownstreamId,
    pub observe_id: ObserveId,
    pub checkpoint_ts: TimeStamp,
    pub region_epoch: RegionEpoch,
    pub kv_api: KvApi,
    pub filter_loop: bool,
    pub observed_range: ObservedRangeView,
    pub max_scan_batch_bytes: usize,
    pub max_scan_batch_size: usize,
}

impl View for ScanTask {
    type V = ScanTaskView;

    open spec fn view(&self) -> ScanTaskView {
        ScanTaskView {
            region_id: self.region_id,
            conn_id: self.conn_id,
            request_id: self.request_id,
            downstream_id: self.downstream_id,
            observe_id: self.observe_id,
            checkpoint_ts: self.checkpoint_ts,
            region_epoch: self.region_epoch,
            kv_api: self.kv_api,
            filter_loop: self.filter_loop,
            observed_range: self.observed_range@,
            max_scan_batch_bytes: self.max_scan_batch_bytes,
            max_scan_batch_size: self.max_scan_batch_size,
        }
    }
}

/// What the next resolution cycle starts from.
#[derive(Clone, Debug, PartialEq, Eq)]
pub struct MinTsRound {
    /// How long to wait before the cycle begins, in milliseconds.
    pub wait_ms: u64,
    /// The regions that are captured now.
    pub regions: Vec<u64>,
    pub hibernate_regions_compatible: bool,
    /// The interval at which stores advance their timestamps, in
    /// milliseconds.
    pub advance_ts_interval: u64,
    /// Whether the timestamp comes from the provider of causal
    /// timestamps.
    pub causal_ts: bool,
}

pub struct MinTsRoundView {
    pub wait_ms: u64,
    pub regions: Seq<u64>,
    pub hibernate_regions_compatible: bool,
    pub advance_ts_interval: u64,
    pub causal_ts: bool,
}

impl View for MinTsRound {
    type V = MinTsRoundView;

    open spec fn view(&self) -> MinTsRoundView {
        MinTsRoundView {
            wait_ms: self.wait_ms,
            regions: self.regions@,
            hibernate_regions_compatible: self.hibernate_regions_compatible,
            advance_ts_interval: self.advance_ts_interval,
            causal_ts: self.causal_ts,
        }
    }
}

/// What is known of a region's delegate.
#[derive(Clone, Copy, Debug, PartialEq, Eq, Structural)]
pub struct DelegateSummary {
    pub observe_id: ObserveId,
    pub downstreams: usize,
    pub failed: bool,
}

/// The answer to a question about the engine's state.
#[derive(Clone, Copy, Debug, PartialEq, Eq, Structural)]
pub enum ValidateReply {
    Region { region_id: u64, delegate: Option<DelegateSummary> },
    OldValueCache { capacity: u64 },
    UnresolvedRegion(usize),
}

/// One thing for the surroundings to do.
#[derive(Clone, Debug, PartialEq, Eq)]
pub enum Effect {
    /// Hand the event to the sink of the connection.
    Send { conn_id: ConnId, event: CdcEvent },
    /// Begin to observe the region's commands, under the given epoch.
    Observe { region_id: u64, observe_id: ObserveId },
    /// Stop observing the region. The epoch must be the one under which
    /// it is observed.
    StopObserving { region_id: u64, observe_id: ObserveId },
    /// Run the incremental scan.
    SpawnScan(ScanTask),
    /// Tell the scan of the subscription whether to go on. `build_resolver`
    /// says whether it is this scan that reads the region's locks.
    ScanInit { region_id: u64, downstream_id: DownstreamId, build_resolver: bool, proceed: bool },
    /// Start the next resolution cycle.
    ArmMinTs(MinTsRound),
    /// Answer a question.
    Validated(ValidateReply),
    /// Give the cache of old values the capacity, in bytes.
    ResizeOldValueCache(u64),
    /// Let so many scans run at a time.
    SetScanConcurrency(usize),
    /// Let scans read so many bytes a second; zero is no limit.
    SetScanSpeedLimit(u64),
    /// Let scans fetch so many bytes a second; zero is no limit.
    SetFetchSpeedLimit(u64),
}

pub enum EffectView {
    Send { conn_id: ConnId, event: CdcEventView },
    Observe { region_id: u64, observe_id: ObserveId },
    StopObserving { region_id: u64, observe_id: ObserveId },
    SpawnScan(ScanTaskView),
    ScanInit { region_id: u64, downstream_id: DownstreamId, build_resolver: bool, proceed: bool },
    ArmMinTs(MinTsRoundView),
    Validated(ValidateReply),
    ResizeOldValueCache(u64),
    SetScanConcurrency(usize),
    SetScanSpeedLimit(u64),
    SetFetchSpeedLimit(u64),
}

impl View for Effect {
    type V = EffectView;

    open spec fn view(&self) -> EffectView {
        match *self {
            Effect::Send { conn_id, event } => EffectView::Send { conn_id, event: event@ },
            Effect::Observe { region_id, observe_id } => EffectView::Observe { region_id, observe_id },
            Effect::StopObserving { region_id, observe_id } => EffectView::StopObserving {
                region_id,
                observe_id,
            },
            Effect::SpawnScan(task) => EffectView::SpawnScan(task@),
            Effect::ScanInit { region_id, downstream_id, build_resolver, proceed } => EffectView::ScanInit {
                region_id,
                downstream_id,
                build_resolver,
                proceed,
            },
            Effect::ArmMinTs(round) => EffectView::ArmMinTs(round@),
            Effect::Validated(reply) => EffectView::Validated(reply),
            Effect::ResizeOldValueCache(bytes) => EffectView::ResizeOldValueCache(bytes),
            Effect::SetScanConcurrency(n) => EffectView::SetScanConcurrency(n),
            Effect::SetScanSpeedLimit(bytes) => EffectView::SetScanSpeedLimit(bytes),
            Effect::SetFetchSpeedLimit(bytes) => EffectView::SetFetchSpeedLimit(bytes),
        }
    }
}

impl EffectView {
    /// Tell the request of the connection that its subscription of the
    /// region has ended with the error.
    pub open spec fn send_error(
        conn_id: ConnId,
        region_id: u64,
        request_id: RequestId,
        err: EventError,
    ) -> EffectView {
        EffectView::Send {
            conn_id,
            event: CdcEventView::Event(EventView::error(region_id, request_id.0, err)),
        }
    }
}

impl Effect {
    /// Tell the request of the connection that its subscription of the
    /// region has ended with the error.
    pub fn send_error(conn_id: ConnId, region_id: u64, request_id: RequestId, err: EventError) -> (r:
        Effect)
        ensures
            r@ == EffectView::send_error(conn_id, region_id, request_id, err),
    {
        Effect::Send { conn_id, event: CdcEvent::Event(Event::error(region_id, request_id.0, err)) }
    }
}

} // verus!
