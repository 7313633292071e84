//! The model of the engine: its state as a mathematical value, and what
//! each message makes of it.

use vstd::prelude::*;
use crate::advance::AdvanceView;
use crate::batch::CmdBatchView;
use crate::config::{CdcConfig, ConfigChange};
use crate::conn::{ConnView, conn_index, targets};
use crate::delegate::{DelegateView, FailedDownstream};
use crate::downstream::{ApiVersion, DownstreamView, spec_validate_kv_api};
use crate::effect::{EffectView, MinTsRoundView, ScanTaskView, ValidateReply};
use crate::error::{BusyReason, Error, EventError};
use crate::event::CdcEventView;
use crate::ids::{ConnId, DownstreamId, ObserveId, RequestId};
use crate::lock::{KeyLockView, LockTrackerView};
use crate::quota::MemoryQuota;
use crate::seqs::first_index;
use crate::task::{ChangeDataRequest, Deregister, Region, TaskView, Validate};
use crate::timestamp::TimeStamp;
use crate::version::Version;

verus! {

/// The state of the engine.
pub struct EndpointView {
    pub cluster_id: u64,
    pub api_version: ApiVersion,
    pub raftstore_v2: bool,
    pub causal_ts: bool,
    pub config: CdcConfig,
    pub advance_ts_interval: u64,
    pub capture_regions: Seq<DelegateView>,
    pub connections: Seq<ConnView>,
    pub local_readers: Seq<u64>,
    pub next_observe_id: u64,
    pub scan_task_count: usize,
    pub scan_concurrency: usize,
    pub scan_speed_limit: u64,
    pub fetch_speed_limit: u64,
    pub max_scan_batch_bytes: usize,
    pub max_scan_batch_size: usize,
    pub sink_memory_quota: MemoryQuota,
    pub old_value_cache_capacity: u64,
    pub current_ts: TimeStamp,
    pub min_resolved_ts: TimeStamp,
    pub min_ts_region_id: u64,
    pub resolved_region_count: usize,
    pub unresolved_region_count: usize,
}

/// Tells the capture state of the region from the others.
pub open spec fn delegate_of(region_id: u64) -> spec_fn(DelegateView) -> bool {
    |d: DelegateView| d.region_id == region_id
}

/// The place of the region's capture state among `regions`.
pub open spec fn region_index(regions: Seq<DelegateView>, region_id: u64) -> Option<int> {
    first_index(regions, delegate_of(region_id))
}

/// Tells the region with the id from the others.
pub open spec fn reader_of(region_id: u64) -> spec_fn(u64) -> bool {
    |r: u64| r == region_id
}

/// The readable regions without the region with the id.
pub open spec fn without_reader(readers: Seq<u64>, region_id: u64) -> Seq<u64> {
    match first_index(readers, reader_of(region_id)) {
        Some(i) => readers.remove(i),
        None => readers,
    }
}

/// The connections after each has taken out its subscription of the
/// region by the request.
pub open spec fn unsubscribe_all(conns: Seq<ConnView>, request_id: RequestId, region_id: u64) -> Seq<
    ConnView,
> {
    Seq::new(conns.len(), |i: int| conns[i].unsubscribe(request_id, region_id))
}

/// The connections after the requests of the subscriptions `ds` have
/// been taken out of all of them, for the region.
pub open spec fn unsubscribe_requests(conns: Seq<ConnView>, ds: Seq<DownstreamView>, region_id: u64) -> Seq<
    ConnView,
>
    decreases ds.len(),
{
    if ds.len() == 0 {
        conns
    } else {
        unsubscribe_requests(
            unsubscribe_all(conns, ds.first().req_id, region_id),
            ds.drop_first(),
            region_id,
        )
    }
}

/// The bytes of the batches together, as far as the machine can count.
pub open spec fn total_size(multi: Seq<CmdBatchView>, acc: usize) -> usize
    decreases multi.len(),
{
    if multi.len() == 0 {
        acc
    } else {
        total_size(
            multi.drop_first(),
            if acc + multi.first().size <= usize::MAX {
                (acc + multi.first().size) as usize
            } else {
                usize::MAX
            },
        )
    }
}

/// The regions after those with the ids have gone through a resolution
/// cycle, one after the other, with what they add to the cycle. An id of
/// a region that is not captured changes and adds nothing.
pub open spec fn gather(
    regions: Seq<DelegateView>,
    ids: Seq<u64>,
    min_ts: TimeStamp,
    conns: Seq<ConnView>,
    advance: AdvanceView,
) -> (Seq<DelegateView>, AdvanceView)
    decreases ids.len(),
{
    if ids.len() == 0 {
        (regions, advance)
    } else {
        match region_index(regions, ids.first()) {
            Some(i) => gather(
                regions.update(i, regions[i].advanced(min_ts)),
                ids.drop_first(),
                min_ts,
                conns,
                regions[i].on_min_ts(min_ts, conns, advance),
            ),
            None => gather(regions, ids.drop_first(), min_ts, conns, advance),
        }
    }
}

/// The ids of the regions.
pub open spec fn region_ids(regions: Seq<DelegateView>) -> Seq<u64> {
    Seq::new(regions.len(), |i: int| regions[i].region_id)
}

/// How long the next resolution cycle waits: what is left of the
/// interval after the time that has passed.
pub open spec fn wait_interval(interval_ms: u64, elapsed_ms: u64) -> u64 {
    if elapsed_ms <= interval_ms {
        (interval_ms - elapsed_ms) as u64
    } else {
        0
    }
}

/// The number of bytes as a size of this machine, at most the largest.
pub open spec fn clamp_to_usize(bytes: u64) -> usize {
    if bytes <= usize::MAX {
        bytes as usize
    } else {
        usize::MAX
    }
}

/// The release from which raw keys can be watched.
pub open spec fn raw_kv_version() -> Version {
    Version { major: 6, minor: 2, patch: 0, pre_release: false }
}

impl EndpointView {
    /// An engine that captures nothing yet.
    pub open spec fn new(
        cluster_id: u64,
        config: CdcConfig,
        advance_ts_interval: u64,
        raftstore_v2: bool,
        api_version: ApiVersion,
        sink_memory_quota: MemoryQuota,
        causal_ts: bool,
    ) -> EndpointView {
        EndpointView {
            cluster_id,
            api_version,
            raftstore_v2,
            causal_ts,
            config,
            advance_ts_interval,
            capture_regions: Seq::empty(),
            connections: Seq::empty(),
            local_readers: Seq::empty(),
            next_observe_id: 0,
            scan_task_count: 0,
            scan_concurrency: config.incremental_scan_concurrency,
            scan_speed_limit: config.incremental_scan_speed_limit,
            fetch_speed_limit: config.incremental_fetch_speed_limit,
            max_scan_batch_bytes: 1048576,
            max_scan_batch_size: 1024,
            sink_memory_quota,
            old_value_cache_capacity: config.old_value_cache_memory_quota,
            current_ts: TimeStamp(0),
            min_resolved_ts: TimeStamp(u64::MAX),
            min_ts_region_id: 0,
            resolved_region_count: 0,
            unresolved_region_count: 0,
        }
    }

    /// The message that tells the client of a registration that it is
    /// refused.
    pub open spec fn refuse(request: ChangeDataRequest, downstream: DownstreamView, err: EventError) -> Seq<
        EffectView,
    > {
        seq![
            EffectView::send_error(downstream.conn_id, request.region_id, downstream.req_id, err),
        ]
    }

    /// The scan that a registration hands out.
    pub open spec fn scan_task(
        self,
        request: ChangeDataRequest,
        downstream: DownstreamView,
        observe_id: ObserveId,
    ) -> ScanTaskView {
        ScanTaskView {
            region_id: request.region_id,
            conn_id: downstream.conn_id,
            request_id: RequestId(request.request_id),
            downstream_id: downstream.id,
            observe_id,
            checkpoint_ts: TimeStamp(request.checkpoint_ts),
            region_epoch: request.region_epoch,
            kv_api: request.kv_api,
            filter_loop: downstream.filter_loop,
            observed_range: downstream.observed_range,
            max_scan_batch_bytes: self.max_scan_batch_bytes,
            max_scan_batch_size: self.max_scan_batch_size,
        }
    }

    /// Why a registration is refused, if it is, with the error that its
    /// client is told. The checks are made in this order, and the first
    /// that fails decides:
    /// the cluster id, where the connection has it validated; the kind of
    /// keys; the number of pending scans; whether the store can read the
    /// region; whether the request watches the region already; whether
    /// the subscription's epoch is the one at which the region's locks
    /// were read; whether an observation epoch is left for a region that
    /// is not captured yet.
    pub open spec fn refusal(self, conn: ConnView, request: ChangeDataRequest, downstream: DownstreamView) -> Option<
        EventError,
    > {
        let region_id = request.region_id;
        if conn.features().validate_cluster_id && self.cluster_id != request.cluster_id {
            Some(EventError::ClusterIdMismatch { current: self.cluster_id, request: request.cluster_id })
        } else if !spec_validate_kv_api(request.kv_api, self.api_version) {
            Some(EventError::Compatibility { required_version: raw_kv_version() })
        } else if self.scan_task_count >= self.config.incremental_scan_concurrency_limit {
            Some(EventError::ServerIsBusy { reason: BusyReason::TooManyPendingScans })
        } else if !self.local_readers.contains(region_id) {
            Some(EventError::RegionNotFound { region_id })
        } else if conn.get_downstream(RequestId(request.request_id), region_id) is Some {
            Some(EventError::DuplicateRequest { region_id })
        } else {
            match region_index(self.capture_regions, region_id) {
                Some(i) => match self.capture_regions[i].refusal(downstream) {
                    Some(e) => Some(e.spec_into_error_event(region_id)),
                    None => None,
                },
                None => if self.next_observe_id == u64::MAX {
                    Some(EventError::ServerIsBusy { reason: BusyReason::ObserveIdsExhausted })
                } else {
                    None
                },
            }
        }
    }

    /// The engine after a registration, with what it asks for.
    ///
    /// A registration on a connection that is not there is dropped. One
    /// that is refused changes nothing, and its client is told why. One
    /// that is accepted enters the subscription into its connection and
    /// into the capture state of its region, which is made if it is not
    /// there; the subscription's scan is handed out, and counts as
    /// pending.
    pub open spec fn on_register(self, request: ChangeDataRequest, downstream: DownstreamView) -> (
        EndpointView,
        Seq<EffectView>,
    ) {
        let region_id = request.region_id;
        match conn_index(self.connections, downstream.conn_id) {
            None => (self, Seq::empty()),
            Some(c) => match self.refusal(self.connections[c], request, downstream) {
                Some(err) => (self, Self::refuse(request, downstream, err)),
                None => {
                    let connections = self.connections.update(
                        c,
                        self.connections[c].subscribe(
                            RequestId(request.request_id),
                            region_id,
                            downstream.id,
                        ),
                    );
                    let started = DownstreamView {
                        state: downstream.state.spec_start_scan(),
                        ..downstream
                    };
                    let scan_task_count = (self.scan_task_count + 1) as usize;
                    match region_index(self.capture_regions, region_id) {
                        Some(i) => (
                            EndpointView {
                                connections,
                                scan_task_count,
                                capture_regions: self.capture_regions.update(
                                    i,
                                    self.capture_regions[i].subscribe(started),
                                ),
                                ..self
                            },
                            seq![
                                EffectView::SpawnScan(
                                    self.scan_task(
                                        request,
                                        downstream,
                                        self.capture_regions[i].observe_id,
                                    ),
                                ),
                            ],
                        ),
                        None => (
                            EndpointView {
                                connections,
                                scan_task_count,
                                capture_regions: self.capture_regions.push(
                                    DelegateView::new(
                                        region_id,
                                        ObserveId(self.next_observe_id),
                                    ).subscribe(started),
                                ),
                                next_observe_id: (self.next_observe_id + 1) as u64,
                                ..self
                            },
                            seq![
                                EffectView::Observe {
                                    region_id,
                                    observe_id: ObserveId(self.next_observe_id),
                                },
                                EffectView::SpawnScan(
                                    self.scan_task(
                                        request,
                                        downstream,
                                        ObserveId(self.next_observe_id),
                                    ),
                                ),
                            ],
                        ),
                    }
                },
            },
        }
    }

    /// The engine after a subscription has been taken out of its region,
    /// with what that asks for: the message that tells the client of
    /// `err`, and, where it was the region's last subscription, the end
    /// of the region's capture.
    pub open spec fn deregister_downstream(
        self,
        region_id: u64,
        downstream_id: DownstreamId,
        err: Option<Error>,
    ) -> (EndpointView, Seq<EffectView>) {
        match region_index(self.capture_regions, region_id) {
            None => (self, Seq::empty()),
            Some(i) => {
                let step = self.capture_regions[i].unsubscribe(downstream_id, err);
                if step.0.downstreams.len() == 0 {
                    (
                        EndpointView { capture_regions: self.capture_regions.remove(i), ..self },
                        step.1.push(
                            EffectView::StopObserving { region_id, observe_id: step.0.observe_id },
                        ),
                    )
                } else {
                    (
                        EndpointView {
                            capture_regions: self.capture_regions.update(i, step.0),
                            ..self
                        },
                        step.1,
                    )
                }
            },
        }
    }

    /// The engine after the subscriptions have been taken out of their
    /// regions, one after the other.
    pub open spec fn deregister_downstreams(
        self,
        subs: Seq<(u64, DownstreamId)>,
        err: Option<Error>,
        out: Seq<EffectView>,
    ) -> (EndpointView, Seq<EffectView>)
        decreases subs.len(),
    {
        if subs.len() == 0 {
            (self, out)
        } else {
            let step = self.deregister_downstream(subs.first().0, subs.first().1, err);
            step.0.deregister_downstreams(subs.drop_first(), err, out + step.1)
        }
    }

    /// The engine after a deregistration, with what it asks for. A
    /// deregistration that names a connection that is not there, a
    /// subscription that is not the one with the given id, or a region
    /// that is not observed under the given epoch changes nothing and
    /// asks for nothing.
    pub open spec fn on_deregister(self, deregister: Deregister) -> (EndpointView, Seq<EffectView>) {
        match deregister {
            Deregister::Conn(conn_id) => match conn_index(self.connections, conn_id) {
                None => (self, Seq::empty()),
                Some(c) => (EndpointView {
                    connections: self.connections.remove(c),
                    ..self
                }).deregister_downstreams(
                    targets(self.connections[c].downstreams()),
                    None,
                    Seq::empty(),
                ),
            },
            Deregister::Request { conn_id, request_id } => match conn_index(
                self.connections,
                conn_id,
            ) {
                None => (self, Seq::empty()),
                Some(c) => (EndpointView {
                    connections: self.connections.update(
                        c,
                        self.connections[c].unsubscribe_request(request_id),
                    ),
                    ..self
                }).deregister_downstreams(
                    self.connections[c].of_request(request_id),
                    Some(Error::Other),
                    Seq::empty(),
                ),
            },
            Deregister::Region { conn_id, request_id, region_id } => match conn_index(
                self.connections,
                conn_id,
            ) {
                None => (self, Seq::empty()),
                Some(c) => match self.connections[c].get_downstream(request_id, region_id) {
                    None => (self, Seq::empty()),
                    Some(id) => (EndpointView {
                        connections: self.connections.update(
                            c,
                            self.connections[c].unsubscribe(request_id, region_id),
                        ),
                        ..self
                    }).deregister_downstream(region_id, id, Some(Error::Other)),
                },
            },
            Deregister::Downstream { conn_id, request_id, region_id, downstream_id, err } => match conn_index(
                self.connections,
                conn_id,
            ) {
                None => (self, Seq::empty()),
                Some(c) => if self.connections[c].get_downstream(request_id, region_id) == Some(
                    downstream_id,
                ) {
                    (EndpointView {
                        connections: self.connections.update(
                            c,
                            self.connections[c].unsubscribe(request_id, region_id),
                        ),
                        ..self
                    }).deregister_downstream(region_id, downstream_id, err)
                } else {
                    (self, Seq::empty())
                },
            },
            Deregister::Delegate { region_id, observe_id, err } => match region_index(
                self.capture_regions,
                region_id,
            ) {
                None => (self, Seq::empty()),
                Some(i) => if self.capture_regions[i].observe_id != observe_id {
                    (self, Seq::empty())
                } else {
                    (
                        EndpointView {
                            capture_regions: self.capture_regions.remove(i),
                            connections: unsubscribe_requests(
                                self.connections,
                                self.capture_regions[i].downstreams,
                                region_id,
                            ),
                            ..self
                        },
                        self.capture_regions[i].stop(err).1.push(
                            EffectView::StopObserving { region_id, observe_id },
                        ),
                    )
                },
            },
        }
    }

    /// The engine after one batch of a region's commands, with the
    /// messages it gives rise to added to `out`. A batch for a region
    /// that is not captured, or whose capture has failed, is dropped. A
    /// batch that cannot be applied marks the region as failed and takes
    /// it out, with the error.
    pub open spec fn on_batch(self, batch: CmdBatchView, out: Seq<EffectView>) -> (
        EndpointView,
        Seq<EffectView>,
    ) {
        match region_index(self.capture_regions, batch.region_id) {
            None => (self, out),
            Some(i) => if self.capture_regions[i].failed {
                (self, out)
            } else {
                let step = self.capture_regions[i].on_batch(batch, out);
                match step.2 {
                    Ok(_) => (
                        EndpointView {
                            capture_regions: self.capture_regions.update(i, step.0),
                            ..self
                        },
                        step.1,
                    ),
                    Err(e) => {
                        let gone = (EndpointView {
                            capture_regions: self.capture_regions.update(
                                i,
                                DelegateView { failed: true, ..step.0 },
                            ),
                            ..self
                        }).on_deregister(
                            Deregister::Delegate {
                                region_id: batch.region_id,
                                observe_id: step.0.observe_id,
                                err: e,
                            },
                        );
                        (gone.0, step.1 + gone.1)
                    },
                }
            },
        }
    }

    /// The engine after the batches, one after the other.
    pub open spec fn on_batches(self, multi: Seq<CmdBatchView>, out: Seq<EffectView>) -> (
        EndpointView,
        Seq<EffectView>,
    )
        decreases multi.len(),
    {
        if multi.len() == 0 {
            (self, out)
        } else {
            let step = self.on_batch(multi.first(), out);
            step.0.on_batches(multi.drop_first(), step.1)
        }
    }

    /// The engine after batches of commands: their bytes are given back
    /// to the memory quota, and each is applied to its region.
    pub open spec fn on_multi_batch(self, multi: Seq<CmdBatchView>) -> (EndpointView, Seq<EffectView>) {
        (EndpointView {
            sink_memory_quota: self.sink_memory_quota.spec_free(total_size(multi, 0)),
            ..self
        }).on_batches(multi, Seq::empty())
    }

    /// The engine after the subscriptions that failed have been taken
    /// out, each if it still is the one with its id.
    pub open spec fn deregister_failed(
        self,
        region_id: u64,
        failed: Seq<FailedDownstream>,
        out: Seq<EffectView>,
    ) -> (EndpointView, Seq<EffectView>)
        decreases failed.len(),
    {
        if failed.len() == 0 {
            (self, out)
        } else {
            let f = failed.first();
            let step = self.on_deregister(
                Deregister::Downstream {
                    conn_id: f.conn_id,
                    request_id: f.req_id,
                    region_id,
                    downstream_id: f.downstream_id,
                    err: Some(f.err),
                },
            );
            step.0.deregister_failed(region_id, failed.drop_first(), out + step.1)
        }
    }

    /// The engine after a scan has delivered the locks of a region. They
    /// are dropped if the region is not observed under the scan's epoch
    /// any more. Else they are installed, and the subscriptions that were
    /// made at another epoch of the region are taken out; if they cannot
    /// be installed, the region is taken out with the error.
    pub open spec fn finish_scan_locks(self, observe_id: ObserveId, region: Region, locks: Seq<KeyLockView>) -> (
        EndpointView,
        Seq<EffectView>,
    ) {
        match region_index(self.capture_regions, region.id) {
            None => (self, Seq::empty()),
            Some(i) => if self.capture_regions[i].observe_id != observe_id {
                (self, Seq::empty())
            } else {
                match self.capture_regions[i].finish_scan_locks(region.region_epoch, locks) {
                    Ok(d) => (EndpointView {
                        capture_regions: self.capture_regions.update(i, d),
                        ..self
                    }).deregister_failed(
                        region.id,
                        self.capture_regions[i].failed_on_finish(region.region_epoch),
                        Seq::empty(),
                    ),
                    Err(e) => self.on_deregister(
                        Deregister::Delegate { region_id: region.id, observe_id, err: e },
                    ),
                }
            },
        }
    }

    /// The engine after a resolution cycle for the regions with the ids,
    /// with the messages that carry the resolved timestamps.
    pub open spec fn on_min_ts(self, regions: Seq<u64>, min_ts: TimeStamp, current_ts: TimeStamp) -> (
        EndpointView,
        Seq<EffectView>,
    ) {
        let gathered = gather(
            self.capture_regions,
            regions,
            min_ts,
            self.connections,
            AdvanceView::new(),
        );
        let advance = gathered.1;
        let emitted = advance.emitted(self.connections);
        (
            EndpointView {
                capture_regions: gathered.0,
                current_ts,
                resolved_region_count: advance.scan_finished,
                unresolved_region_count: advance.blocked_on_scan,
                min_resolved_ts: TimeStamp(emitted.1.ts),
                min_ts_region_id: emitted.1.region_id,
                ..self
            },
            emitted.0,
        )
    }

    /// The engine after a connection has been opened. It takes the place
    /// of a connection with the same id, if there is one.
    pub open spec fn on_open_conn(self, conn: ConnView) -> EndpointView {
        match conn_index(self.connections, conn.id) {
            Some(c) => EndpointView { connections: self.connections.update(c, conn), ..self },
            None => EndpointView { connections: self.connections.push(conn), ..self },
        }
    }

    /// The engine after a connection has announced its version.
    pub open spec fn on_set_conn_version(
        self,
        conn_id: ConnId,
        version: Version,
        explicit_features: Seq<Seq<char>>,
    ) -> EndpointView {
        match conn_index(self.connections, conn_id) {
            Some(c) => EndpointView {
                connections: self.connections.update(
                    c,
                    self.connections[c].check_version_and_set_feature(version, explicit_features),
                ),
                ..self
            },
            None => self,
        }
    }

    /// The engine after the scan of a subscription has reported back,
    /// with what it asks for. Where the region is still observed under
    /// the scan's epoch, its lock table begins to keep changes if it has
    /// not before, and the scan is told whether it is the one to read the
    /// locks. Where the subscription and its connection are still there
    /// too, a barrier is sent to the connection, the subscription moves
    /// from initializing to normal, and the scan is told to go on. In
    /// every other case the scan is told not to.
    pub open spec fn on_init_downstream(
        self,
        region_id: u64,
        observe_id: ObserveId,
        downstream_id: DownstreamId,
    ) -> (EndpointView, Seq<EffectView>) {
        let halt = seq![
            EffectView::ScanInit { region_id, downstream_id, build_resolver: false, proceed: false },
        ];
        match region_index(self.capture_regions, region_id) {
            None => (self, halt),
            Some(i) => if self.capture_regions[i].observe_id != observe_id {
                (self, halt)
            } else {
                let d = self.capture_regions[i];
                let build_resolver = d.lock_tracker == LockTrackerView::Pending;
                let prepared = d.init_lock_tracker();
                let sink = match d.index_of(downstream_id) {
                    Some(k) => if conn_index(self.connections, d.downstreams[k].conn_id) is Some {
                        Some(k)
                    } else {
                        None
                    },
                    None => None,
                };
                match sink {
                    None => (
                        EndpointView {
                            capture_regions: self.capture_regions.update(i, prepared),
                            ..self
                        },
                        seq![
                            EffectView::ScanInit {
                                region_id,
                                downstream_id,
                                build_resolver,
                                proceed: false,
                            },
                        ],
                    ),
                    Some(k) => (
                        EndpointView {
                            capture_regions: self.capture_regions.update(
                                i,
                                DelegateView {
                                    downstreams: prepared.downstreams.update(
                                        k,
                                        DownstreamView {
                                            state: prepared.downstreams[k].state.spec_finish_scan(),
                                            ..prepared.downstreams[k]
                                        },
                                    ),
                                    ..prepared
                                },
                            ),
                            ..self
                        },
                        seq![
                            EffectView::Send {
                                conn_id: d.downstreams[k].conn_id,
                                event: CdcEventView::Barrier,
                            },
                            EffectView::ScanInit {
                                region_id,
                                downstream_id,
                                build_resolver,
                                proceed: true,
                            },
                        ],
                    ),
                }
            },
        }
    }

    /// The answer to a question.
    pub open spec fn on_validate(self, validate: Validate) -> ValidateReply {
        match validate {
            Validate::Region(region_id) => ValidateReply::Region {
                region_id,
                delegate: match region_index(self.capture_regions, region_id) {
                    Some(i) => Some(self.capture_regions[i].summary()),
                    None => None,
                },
            },
            Validate::OldValueCache => ValidateReply::OldValueCache {
                capacity: self.old_value_cache_capacity,
            },
            Validate::UnresolvedRegion => ValidateReply::UnresolvedRegion(
                self.unresolved_region_count,
            ),
        }
    }

    /// The settings that a change leads to: the settings with the new
    /// values, made valid.
    pub open spec fn next_config(self, change: ConfigChange) -> CdcConfig {
        self.config.spec_update(change).spec_validate(self.raftstore_v2)
    }

    /// What a change of the settings asks the surroundings to do, for
    /// each setting that differs from what it was.
    pub open spec fn config_effects(self, change: ConfigChange) -> Seq<EffectView> {
        let next = self.next_config(change);
        let cache: Seq<EffectView> = if next.old_value_cache_memory_quota
            != self.config.old_value_cache_memory_quota {
            seq![EffectView::ResizeOldValueCache(next.old_value_cache_memory_quota)]
        } else {
            Seq::empty()
        };
        let concurrency: Seq<EffectView> = if next.incremental_scan_concurrency
            != self.config.incremental_scan_concurrency {
            seq![EffectView::SetScanConcurrency(next.incremental_scan_concurrency)]
        } else {
            Seq::empty()
        };
        let scan: Seq<EffectView> = if next.incremental_scan_speed_limit
            != self.config.incremental_scan_speed_limit {
            seq![EffectView::SetScanSpeedLimit(next.incremental_scan_speed_limit)]
        } else {
            Seq::empty()
        };
        let fetch: Seq<EffectView> = if next.incremental_fetch_speed_limit
            != self.config.incremental_fetch_speed_limit {
            seq![EffectView::SetFetchSpeedLimit(next.incremental_fetch_speed_limit)]
        } else {
            Seq::empty()
        };
        cache + concurrency + scan + fetch
    }

    /// The engine after a change of the settings: it has the new
    /// settings, made valid, and each limit that follows a setting that
    /// differs from what it was has the new value.
    pub open spec fn on_change_cfg(self, change: ConfigChange) -> EndpointView {
        let next = self.next_config(change);
        EndpointView {
            config: next,
            old_value_cache_capacity: if next.old_value_cache_memory_quota
                != self.config.old_value_cache_memory_quota {
                next.old_value_cache_memory_quota
            } else {
                self.old_value_cache_capacity
            },
            scan_concurrency: if next.incremental_scan_concurrency
                != self.config.incremental_scan_concurrency {
                next.incremental_scan_concurrency
            } else {
                self.scan_concurrency
            },
            sink_memory_quota: if next.sink_memory_quota != self.config.sink_memory_quota {
                MemoryQuota {
                    capacity: crate::quota::granted(clamp_to_usize(next.sink_memory_quota)),
                    ..self.sink_memory_quota
                }
            } else {
                self.sink_memory_quota
            },
            scan_speed_limit: if next.incremental_scan_speed_limit
                != self.config.incremental_scan_speed_limit {
                next.incremental_scan_speed_limit
            } else {
                self.scan_speed_limit
            },
            fetch_speed_limit: if next.incremental_fetch_speed_limit
                != self.config.incremental_fetch_speed_limit {
                next.incremental_fetch_speed_limit
            } else {
                self.fetch_speed_limit
            },
            ..self
        }
    }

    /// What the next resolution cycle starts from.
    pub open spec fn min_ts_round(self, elapsed_ms: u64) -> MinTsRoundView {
        MinTsRoundView {
            wait_ms: wait_interval(self.config.min_ts_interval, elapsed_ms),
            regions: region_ids(self.capture_regions),
            hibernate_regions_compatible: self.config.hibernate_regions_compatible,
            advance_ts_interval: self.advance_ts_interval,
            causal_ts: self.causal_ts,
        }
    }

    /// The engine after a message, with what it asks the surroundings to
    /// do, in order.
    pub open spec fn run(self, task: TaskView) -> (EndpointView, Seq<EffectView>) {
        match task {
            TaskView::Register { request, downstream } => self.on_register(request, downstream),
            TaskView::Deregister(deregister) => self.on_deregister(deregister),
            TaskView::OpenConn { conn } => (self.on_open_conn(conn), Seq::empty()),
            TaskView::SetConnVersion { conn_id, version, explicit_features } => (
                self.on_set_conn_version(conn_id, version, explicit_features),
                Seq::empty(),
            ),
            TaskView::MultiBatch { multi } => self.on_multi_batch(multi),
            TaskView::MinTs { regions, min_ts, current_ts } => self.on_min_ts(
                regions,
                min_ts,
                current_ts,
            ),
            TaskView::FinishScanLocks { observe_id, region, locks } => self.finish_scan_locks(
                observe_id,
                region,
                locks,
            ),
            TaskView::RegisterMinTsEvent { elapsed_ms } => (
                self,
                seq![EffectView::ArmMinTs(self.min_ts_round(elapsed_ms))],
            ),
            TaskView::InitDownstream { region_id, observe_id, downstream_id } => self.on_init_downstream(
                region_id,
                observe_id,
                downstream_id,
            ),
            TaskView::TxnExtra { size } => (
                EndpointView { sink_memory_quota: self.sink_memory_quota.spec_free(size), ..self },
                Seq::empty(),
            ),
            TaskView::Validate(validate) => (
                self,
                seq![EffectView::Validated(self.on_validate(validate))],
            ),
            TaskView::ChangeConfig(change) => (
                self.on_change_cfg(change),
                self.config_effects(change),
            ),
        }
    }
}

} // verus!
