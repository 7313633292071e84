//! The engine: the one owner of all regions' capture state and of all
//! connections. It handles one message at a time; what a message changes
//! and what it asks the surroundings to do is a function of the state
//! and the message.

use vstd::prelude::*;
use crate::advance::Advance;
use crate::batch::CmdBatch;
use crate::config::{CdcConfig, ConfigChange};
use crate::conn::{Conn, find_conn};
use crate::consistency::{admissible, lemma_new_coherent, lemma_run_coherent};
use crate::delegate::{Delegate, FailedDownstream};
use crate::downstream::{ApiVersion, Downstream, validate_kv_api};
use crate::effect::{Effect, EffectView, MinTsRound, ScanTask, ValidateReply};
use crate::error::{BusyReason, Error, EventError};
use crate::event::CdcEvent;
use crate::heap::contains_id;
use crate::ids::{ConnId, DownstreamId, ObserveId, RequestId};
use crate::lock::KeyLock;
use crate::model::{EndpointView, delegate_of, gather, reader_of, region_ids, region_index, total_size, unsubscribe_all, unsubscribe_requests, without_reader};
use crate::quota::MemoryQuota;
use crate::seqs::{is_first, lemma_first_index_absent, lemma_first_index_found, views};
use crate::task::{ChangeDataRequest, Deregister, Region, Task, Validate};
use crate::timestamp::TimeStamp;
use crate::version::Version;

verus! {

/// The bytes that one batch of a scan may take.
pub const MAX_SCAN_BATCH_BYTES: usize = 1048576;

/// The entries that one batch of a scan may hold.
pub const MAX_SCAN_BATCH_SIZE: usize = 1024;

/// The engine.
#[derive(Clone, Debug, PartialEq, Eq)]
pub struct Endpoint {
    pub cluster_id: u64,
    pub api_version: ApiVersion,
    pub raftstore_v2: bool,
    /// Whether timestamps come from a provider of causal timestamps.
    pub causal_ts: bool,
    pub config: CdcConfig,
    /// The interval at which stores advance their timestamps, in
    /// milliseconds.
    pub advance_ts_interval: u64,
    /// The regions that are captured, in the order in which their capture
    /// began.
    pub capture_regions: Vec<Delegate>,
    /// The connections, in the order in which they were opened.
    pub connections: Vec<Conn>,
    /// The regions that this store can read.
    pub local_readers: Vec<u64>,
    /// The observation epoch that the next captured region gets.
    pub next_observe_id: u64,
    /// The number of incremental scans that are pending.
    pub scan_task_count: usize,
    /// The number of incremental scans that run at a time.
    pub scan_concurrency: usize,
    pub scan_speed_limit: u64,
    pub fetch_speed_limit: u64,
    pub max_scan_batch_bytes: usize,
    pub max_scan_batch_size: usize,
    pub sink_memory_quota: MemoryQuota,
    pub old_value_cache_capacity: u64,
    /// The timestamp of the last resolution cycle.
    pub current_ts: TimeStamp,
    /// The least resolved timestamp that the last cycle sent.
    pub min_resolved_ts: TimeStamp,
    /// A region that had the least resolved timestamp.
    pub min_ts_region_id: u64,
    pub resolved_region_count: usize,
    pub unresolved_region_count: usize,
}

impl View for Endpoint {
    type V = EndpointView;

    open spec fn view(&self) -> EndpointView {
        EndpointView {
            cluster_id: self.cluster_id,
            api_version: self.api_version,
            raftstore_v2: self.raftstore_v2,
            causal_ts: self.causal_ts,
            config: self.config,
            advance_ts_interval: self.advance_ts_interval,
            capture_regions: views(self.capture_regions@),
            connections: views(self.connections@),
            local_readers: self.local_readers@,
            next_observe_id: self.next_observe_id,
            scan_task_count: self.scan_task_count,
            scan_concurrency: self.scan_concurrency,
            scan_speed_limit: self.scan_speed_limit,
            fetch_speed_limit: self.fetch_speed_limit,
            max_scan_batch_bytes: self.max_scan_batch_bytes,
            max_scan_batch_size: self.max_scan_batch_size,
            sink_memory_quota: self.sink_memory_quota,
            old_value_cache_capacity: self.old_value_cache_capacity,
            current_ts: self.current_ts,
            min_resolved_ts: self.min_resolved_ts,
            min_ts_region_id: self.min_ts_region_id,
            resolved_region_count: self.resolved_region_count,
            unresolved_region_count: self.unresolved_region_count,
        }
    }
}



/// Finds the capture state of the region.
pub fn find_region(regions: &Vec<Delegate>, region_id: u64) -> (r: Option<usize>)
    ensures
        match r {
            Some(i) => region_index(views(regions@), region_id) == Some(i as int) && i < regions.len(),
            None => region_index(views(regions@), region_id) == None::<int>,
        },
{
    let mut i: usize = 0;
    while i < regions.len()
        invariant
            i <= regions.len(),
            forall|j: int| 0 <= j < i ==> !delegate_of(region_id)(#[trigger] views(regions@)[j]),
        decreases regions.len() - i,
    {
        assert(views(regions@)[i as int] == regions@[i as int]@);
        if regions[i].region_id == region_id {
            proof {
                assert(is_first(views(regions@), delegate_of(region_id), i as int));
                lemma_first_index_found(views(regions@), delegate_of(region_id), i as int);
            }
            return Some(i);
        }
        i += 1;
    }
    proof {
        lemma_first_index_absent(views(regions@), delegate_of(region_id));
    }
    None
}

/// Takes the subscription of the region by the request out of every
/// connection.
fn unsubscribe_everywhere(conns: &mut Vec<Conn>, request_id: RequestId, region_id: u64)
    ensures
        views(final(conns)@) == unsubscribe_all(views(old(conns)@), request_id, region_id),
{
    let mut i: usize = 0;
    while i < conns.len()
        invariant
            i <= conns.len(),
            conns@.len() == old(conns)@.len(),
            forall|j: int|
                0 <= j < i ==> (#[trigger] conns@[j])@ == old(conns)@[j]@.unsubscribe(
                    request_id,
                    region_id,
                ),
            forall|j: int| i <= j < conns.len() ==> conns@[j] == old(conns)@[j],
        decreases conns.len() - i,
    {
        conns[i].unsubscribe(request_id, region_id);
        i += 1;
    }
    assert(views(conns@) =~= unsubscribe_all(views(old(conns)@), request_id, region_id));
}

impl Endpoint {
    /// An engine that captures nothing yet, with the request to start the
    /// first resolution cycle.
    pub fn new(
        cluster_id: u64,
        config: &CdcConfig,
        advance_ts_interval: u64,
        raftstore_v2: bool,
        api_version: ApiVersion,
        sink_memory_quota: MemoryQuota,
        causal_ts: bool,
    ) -> (r: (Endpoint, Vec<Effect>))
        ensures
            r.0@ == EndpointView::new(
                cluster_id,
                *config,
                advance_ts_interval,
                raftstore_v2,
                api_version,
                sink_memory_quota,
                causal_ts,
            ),
            views(r.1@) == seq![EffectView::ArmMinTs(r.0@.min_ts_round(0))],
            r.0@.coherent(),
    {
        let ep = Endpoint {
            cluster_id,
            api_version,
            raftstore_v2,
            causal_ts,
            config: *config,
            advance_ts_interval,
            capture_regions: Vec::new(),
            connections: Vec::new(),
            local_readers: Vec::new(),
            next_observe_id: 0,
            scan_task_count: 0,
            scan_concurrency: config.incremental_scan_concurrency,
            scan_speed_limit: config.incremental_scan_speed_limit,
            fetch_speed_limit: config.incremental_fetch_speed_limit,
            max_scan_batch_bytes: MAX_SCAN_BATCH_BYTES,
            max_scan_batch_size: MAX_SCAN_BATCH_SIZE,
            sink_memory_quota,
            old_value_cache_capacity: config.old_value_cache_memory_quota,
            current_ts: TimeStamp(0),
            min_resolved_ts: TimeStamp(u64::MAX),
            min_ts_region_id: 0,
            resolved_region_count: 0,
            unresolved_region_count: 0,
        };
        assert(ep@.capture_regions =~= Seq::empty());
        assert(ep@.connections =~= Seq::empty());
        proof {
            lemma_new_coherent(ep@);
        }
        let out = ep.register_min_ts_event(0);
        (ep, out)
    }

    pub fn set_max_scan_batch_size(&mut self, max_scan_batch_size: usize)
        ensures
            final(self)@ == (EndpointView { max_scan_batch_size, ..old(self)@ }),
    {
        self.max_scan_batch_size = max_scan_batch_size;
    }

    /// Notes that this store can read the region.
    pub fn add_local_reader(&mut self, region_id: u64)
        ensures
            final(self)@ == (EndpointView {
                local_readers: if old(self)@.local_readers.contains(region_id) {
                    old(self)@.local_readers
                } else {
                    old(self)@.local_readers.push(region_id)
                },
                ..old(self)@
            }),
    {
        if !contains_id(&self.local_readers, region_id) {
            self.local_readers.push(region_id);
        }
    }

    /// Notes that this store cannot read the region any more.
    pub fn remove_local_reader(&mut self, region_id: u64)
        ensures
            final(self)@ == (EndpointView {
                local_readers: without_reader(old(self)@.local_readers, region_id),
                ..old(self)@
            }),
    {
        let mut i: usize = 0;
        while i < self.local_readers.len()
            invariant
                i <= self.local_readers.len(),
                *self == *old(self),
                forall|j: int| 0 <= j < i ==> !reader_of(region_id)(#[trigger] self.local_readers@[j]),
            decreases self.local_readers.len() - i,
        {
            if self.local_readers[i] == region_id {
                proof {
                    assert(is_first(self.local_readers@, reader_of(region_id), i as int));
                    lemma_first_index_found(self.local_readers@, reader_of(region_id), i as int);
                }
                self.local_readers.remove(i);
                return ;
            }
            i += 1;
        }
        proof {
            lemma_first_index_absent(self.local_readers@, reader_of(region_id));
        }
    }

    /// Notes that an incremental scan has ended, in whatever way.
    pub fn release_scan_task(&mut self)
        ensures
            final(self)@ == (EndpointView {
                scan_task_count: if old(self)@.scan_task_count > 0 {
                    (old(self)@.scan_task_count - 1) as usize
                } else {
                    0
                },
                ..old(self)@
            }),
    {
        if self.scan_task_count > 0 {
            self.scan_task_count = self.scan_task_count - 1;
        }
    }

    /// Asks for the next resolution cycle. `elapsed_ms` is the time since
    /// the cycle before began.
    pub fn register_min_ts_event(&self, elapsed_ms: u64) -> (out: Vec<Effect>)
        ensures
            views(out@) == seq![EffectView::ArmMinTs(self@.min_ts_round(elapsed_ms))],
    {
        let wait_ms = if elapsed_ms <= self.config.min_ts_interval {
            self.config.min_ts_interval - elapsed_ms
        } else {
            0
        };
        let mut regions: Vec<u64> = Vec::with_capacity(self.capture_regions.len());
        let mut i: usize = 0;
        while i < self.capture_regions.len()
            invariant
                i <= self.capture_regions.len(),
                regions@ == region_ids(self@.capture_regions).take(i as int),
            decreases self.capture_regions.len() - i,
        {
            regions.push(self.capture_regions[i].region_id);
            assert(regions@ =~= region_ids(self@.capture_regions).take(i + 1));
            i += 1;
        }
        assert(regions@ =~= region_ids(self@.capture_regions));
        let effect = Effect::ArmMinTs(
            MinTsRound {
                wait_ms,
                regions,
                hibernate_regions_compatible: self.config.hibernate_regions_compatible,
                advance_ts_interval: self.advance_ts_interval,
                causal_ts: self.causal_ts,
            },
        );
        let mut out: Vec<Effect> = Vec::new();
        out.push(effect);
        assert(views(out@) =~= seq![effect@]);
        out
    }

    /// Why the registration is refused, if it is.
    fn refusal(&self, c: usize, request: &ChangeDataRequest, downstream: &Downstream) -> (r: Option<
        EventError,
    >)
        requires
            c < self.connections.len(),
        ensures
            r == self@.refusal(self@.connections[c as int], *request, downstream@),
    {
        let region_id = request.region_id;
        assert(self@.connections[c as int] == self.connections@[c as int]@);
        let features = self.connections[c].features();
        if features.validate_cluster_id && self.cluster_id != request.cluster_id {
            return Some(
                EventError::ClusterIdMismatch {
                    current: self.cluster_id,
                    request: request.cluster_id,
                },
            );
        }
        if !validate_kv_api(request.kv_api, self.api_version) {
            return Some(EventError::Compatibility { required_version: Version::new(6, 2, 0) });
        }
        if self.scan_task_count >= self.config.incremental_scan_concurrency_limit {
            return Some(EventError::ServerIsBusy { reason: BusyReason::TooManyPendingScans });
        }
        if !contains_id(&self.local_readers, region_id) {
            return Some(EventError::RegionNotFound { region_id });
        }
        if self.connections[c].get_downstream(RequestId(request.request_id), region_id).is_some() {
            return Some(EventError::DuplicateRequest { region_id });
        }
        match find_region(&self.capture_regions, region_id) {
            Some(i) => {
                assert(self@.capture_regions[i as int] == self.capture_regions@[i as int]@);
                match &self.capture_regions[i].lock_tracker {
                    crate::lock::LockTracker::Prepared { epoch, .. } => {
                        if downstream.region_epoch.version != epoch.version {
                            Some(
                                Error::Request(
                                    crate::error::RegionError::EpochNotMatch { current: *epoch },
                                ).into_error_event(region_id),
                            )
                        } else {
                            None
                        }
                    },
                    _ => None,
                }
            },
            None => {
                if self.next_observe_id == u64::MAX {
                    Some(EventError::ServerIsBusy { reason: BusyReason::ObserveIdsExhausted })
                } else {
                    None
                }
            },
        }
    }

    /// Handles the request of a client to watch a region.
    ///
    /// Nothing happens if the connection is not there. A registration
    /// that is refused changes nothing, and the client is told why. One
    /// that is accepted is entered into its connection and its region,
    /// and its scan is handed out.
    pub fn on_register(&mut self, request: ChangeDataRequest, downstream: Downstream) -> (out: Vec<
        Effect,
    >)
        ensures
            (final(self)@, views(out@)) == old(self)@.on_register(request, downstream@),
    {
        let mut out: Vec<Effect> = Vec::new();
        assert(views(out@) =~= Seq::<EffectView>::empty());
        let region_id = request.region_id;
        let request_id = RequestId(request.request_id);
        let c = match find_conn(&self.connections, downstream.conn_id) {
            Some(c) => c,
            None => {
                return out;
            },
        };
        match self.refusal(c, &request, &downstream) {
            Some(err) => {
                let effect = Effect::send_error(downstream.conn_id, region_id, downstream.req_id, err);
                out.push(effect);
                assert(views(out@) =~= seq![effect@]);
                return out;
            },
            None => {},
        }
        assert(self@.connections[c as int] == self.connections@[c as int]@);
        let ghost before = self@;
        self.connections[c].subscribe(request_id, region_id, downstream.id);
        assert(self@.connections =~= before.connections.update(
            c as int,
            before.connections[c as int].subscribe(request_id, region_id, downstream.id),
        ));
        let mut started = downstream;
        started.state.start_scan();
        let mut task = ScanTask {
            region_id,
            conn_id: started.conn_id,
            request_id,
            downstream_id: started.id,
            observe_id: ObserveId(0),
            checkpoint_ts: TimeStamp(request.checkpoint_ts),
            region_epoch: request.region_epoch,
            kv_api: request.kv_api,
            filter_loop: started.filter_loop,
            observed_range: started.observed_range.duplicate(),
            max_scan_batch_bytes: self.max_scan_batch_bytes,
            max_scan_batch_size: self.max_scan_batch_size,
        };
        self.scan_task_count = self.scan_task_count + 1;
        match find_region(&self.capture_regions, region_id) {
            Some(i) => {
                assert(before.capture_regions[i as int] == self.capture_regions@[i as int]@);
                task.observe_id = self.capture_regions[i].observe_id;
                let _ = self.capture_regions[i].subscribe(started);
                assert(self@.capture_regions =~= before.capture_regions.update(
                    i as int,
                    before.capture_regions[i as int].subscribe(started@),
                ));
                let effect = Effect::SpawnScan(task);
                out.push(effect);
                assert(views(out@) =~= seq![effect@]);
            },
            None => {
                let observe_id = ObserveId(self.next_observe_id);
                self.next_observe_id = self.next_observe_id + 1;
                task.observe_id = observe_id;
                let mut delegate = Delegate::new(region_id, observe_id);
                let _ = delegate.subscribe(started);
                self.capture_regions.push(delegate);
                assert(self@.capture_regions =~= before.capture_regions.push(delegate@));
                let observe = Effect::Observe { region_id, observe_id };
                let spawn = Effect::SpawnScan(task);
                out.push(observe);
                out.push(spawn);
                assert(views(out@) =~= seq![observe@, spawn@]);
            },
        }
        out
    }

    /// Takes a subscription out of its region and adds to `out` what that
    /// asks for. The capture of a region that has no subscription left
    /// ends.
    fn deregister_downstream(
        &mut self,
        region_id: u64,
        downstream_id: DownstreamId,
        err: Option<Error>,
        out: &mut Vec<Effect>,
    )
        ensures
            final(self)@ == old(self)@.deregister_downstream(region_id, downstream_id, err).0,
            views(final(out)@) == views(old(out)@) + old(self)@.deregister_downstream(
                region_id,
                downstream_id,
                err,
            ).1,
    {
        match find_region(&self.capture_regions, region_id) {
            None => {
                assert(views(out@) =~= views(old(out)@) + Seq::<EffectView>::empty());
            },
            Some(i) => {
                assert(self@.capture_regions[i as int] == self.capture_regions@[i as int]@);
                let ghost step = old(self)@.capture_regions[i as int].unsubscribe(downstream_id, err);
                let empty = self.capture_regions[i].unsubscribe(downstream_id, err, out);
                if empty {
                    let delegate = self.capture_regions.remove(i);
                    assert(self@.capture_regions =~= old(self)@.capture_regions.remove(i as int));
                    let effect = Effect::StopObserving { region_id, observe_id: delegate.observe_id };
                    let ghost mid = views(out@);
                    out.push(effect);
                    assert(views(out@) =~= mid.push(effect@));
                    assert(views(out@) =~= views(old(out)@) + step.1.push(effect@));
                } else {
                    assert(self@.capture_regions =~= old(self)@.capture_regions.update(
                        i as int,
                        step.0,
                    ));
                }
            },
        }
    }

    /// Takes the subscriptions out of their regions, one after the other.
    fn deregister_downstreams(
        &mut self,
        subs: &Vec<(u64, DownstreamId)>,
        err: Option<Error>,
        out: &mut Vec<Effect>,
    )
        ensures
            (final(self)@, views(final(out)@)) == old(self)@.deregister_downstreams(
                subs@,
                err,
                views(old(out)@),
            ),
    {
        let mut i: usize = 0;
        assert(subs@.skip(0) =~= subs@);
        while i < subs.len()
            invariant
                i <= subs.len(),
                self@.deregister_downstreams(subs@.skip(i as int), err, views(out@)) == old(
                    self,
                )@.deregister_downstreams(subs@, err, views(old(out)@)),
            decreases subs.len() - i,
        {
            let ghost rest = subs@.skip(i as int);
            assert(rest.first() == subs@[i as int]);
            assert(rest.drop_first() =~= subs@.skip(i + 1));
            let (region_id, downstream_id) = subs[i];
            self.deregister_downstream(region_id, downstream_id, err, out);
            i += 1;
        }
        assert(subs@.skip(i as int).len() == 0);
    }

    /// Takes a connection, a request, a subscription or a region out of
    /// the engine. Nothing happens if what the message names is not there
    /// any more, or has been replaced since the message was sent.
    pub fn on_deregister(&mut self, deregister: Deregister) -> (out: Vec<Effect>)
        ensures
            (final(self)@, views(out@)) == old(self)@.on_deregister(deregister),
    {
        let mut out: Vec<Effect> = Vec::new();
        assert(views(out@) =~= Seq::<EffectView>::empty());
        match deregister {
            Deregister::Conn(conn_id) => {
                match find_conn(&self.connections, conn_id) {
                    None => {},
                    Some(c) => {
                        assert(self@.connections[c as int] == self.connections@[c as int]@);
                        let conn = self.connections.remove(c);
                        assert(self@.connections =~= old(self)@.connections.remove(c as int));
                        let all = conn.subscriptions();
                        let mut subs: Vec<(u64, DownstreamId)> = Vec::new();
                        let mut i: usize = 0;
                        while i < all.len()
                            invariant
                                i <= all.len(),
                                subs@.len() == i,
                                forall|j: int|
                                    0 <= j < i ==> subs@[j] == (
                                        all@[j].region_id,
                                        all@[j].downstream_id,
                                    ),
                            decreases all.len() - i,
                        {
                            subs.push((all[i].region_id, all[i].downstream_id));
                            i += 1;
                        }
                        assert(subs@ =~= crate::conn::targets(conn@.downstreams()));
                        self.deregister_downstreams(&subs, None, &mut out);
                    },
                }
            },
            Deregister::Request { conn_id, request_id } => {
                match find_conn(&self.connections, conn_id) {
                    None => {},
                    Some(c) => {
                        assert(self@.connections[c as int] == self.connections@[c as int]@);
                        let subs = self.connections[c].unsubscribe_request(request_id);
                        assert(self@.connections =~= old(self)@.connections.update(
                            c as int,
                            old(self)@.connections[c as int].unsubscribe_request(request_id),
                        ));
                        self.deregister_downstreams(&subs, Some(Error::Other), &mut out);
                    },
                }
            },
            Deregister::Region { conn_id, request_id, region_id } => {
                match find_conn(&self.connections, conn_id) {
                    None => {},
                    Some(c) => {
                        assert(self@.connections[c as int] == self.connections@[c as int]@);
                        match self.connections[c].unsubscribe(request_id, region_id) {
                            None => {
                                assert(self@.connections =~= old(self)@.connections);
                            },
                            Some(id) => {
                                assert(self@.connections =~= old(self)@.connections.update(
                                    c as int,
                                    old(self)@.connections[c as int].unsubscribe(
                                        request_id,
                                        region_id,
                                    ),
                                ));
                                self.deregister_downstream(region_id, id, Some(Error::Other), &mut out);
                            },
                        }
                    },
                }
            },
            Deregister::Downstream { conn_id, request_id, region_id, downstream_id, err } => {
                match find_conn(&self.connections, conn_id) {
                    None => {},
                    Some(c) => {
                        assert(self@.connections[c as int] == self.connections@[c as int]@);
                        match self.connections[c].get_downstream(request_id, region_id) {
                            Some(id) => {
                                if id == downstream_id {
                                    self.connections[c].unsubscribe(request_id, region_id);
                                    assert(self@.connections =~= old(self)@.connections.update(
                                        c as int,
                                        old(self)@.connections[c as int].unsubscribe(
                                            request_id,
                                            region_id,
                                        ),
                                    ));
                                    self.deregister_downstream(region_id, downstream_id, err, &mut out);
                                }
                            },
                            None => {},
                        }
                    },
                }
            },
            Deregister::Delegate { region_id, observe_id, err } => {
                match find_region(&self.capture_regions, region_id) {
                    None => {},
                    Some(i) => {
                        assert(self@.capture_regions[i as int] == self.capture_regions@[i as int]@);
                        if self.capture_regions[i].observe_id == observe_id {
                            let mut delegate = self.capture_regions.remove(i);
                            assert(self@.capture_regions =~= old(self)@.capture_regions.remove(
                                i as int,
                            ));
                            let ghost ds = delegate@.downstreams;
                            let mut k: usize = 0;
                            assert(ds.skip(0) =~= ds);
                            while k < delegate.downstreams.len()
                                invariant
                                    k <= delegate.downstreams.len(),
                                    ds == delegate@.downstreams,
                                    unsubscribe_requests(
                                        views(self.connections@),
                                        ds.skip(k as int),
                                        region_id,
                                    ) == unsubscribe_requests(
                                        old(self)@.connections,
                                        ds,
                                        region_id,
                                    ),
                                    self@ == (EndpointView {
                                        connections: self@.connections,
                                        capture_regions: old(self)@.capture_regions.remove(i as int),
                                        ..old(self)@
                                    }),
                                decreases delegate.downstreams.len() - k,
                            {
                                let ghost rest = ds.skip(k as int);
                                assert(rest.first() == delegate.downstreams@[k as int]@);
                                assert(rest.drop_first() =~= ds.skip(k + 1));
                                let request_id = delegate.downstreams[k].req_id;
                                unsubscribe_everywhere(&mut self.connections, request_id, region_id);
                                k += 1;
                            }
                            assert(ds.skip(k as int).len() == 0);
                            delegate.stop(err, &mut out);
                            let effect = Effect::StopObserving { region_id, observe_id };
                            let ghost mid = views(out@);
                            out.push(effect);
                            assert(views(out@) =~= mid.push(effect@));
                            assert(Seq::<EffectView>::empty() + old(self)@.capture_regions[i as int].stop(
                                err,
                            ).1 =~= old(self)@.capture_regions[i as int].stop(err).1);
                        }
                    },
                }
            },
        }
        out
    }
}


/// What the engine reports of itself at regular intervals.
#[derive(Clone, Copy, Debug, PartialEq, Eq, Structural)]
pub struct Metrics {
    pub captured_region_count: usize,
    pub resolved_region_count: usize,
    pub unresolved_region_count: usize,
    /// Of the cycles since the last report, where there was one.
    pub min_resolved: Option<MinResolved>,
    /// The bytes of the memory quota that are in use.
    pub sink_bytes: usize,
}

/// The region that lags most, and by how much.
#[derive(Clone, Copy, Debug, PartialEq, Eq, Structural)]
pub struct MinResolved {
    pub region_id: u64,
    /// The physical part of the least resolved timestamp, in
    /// milliseconds.
    pub resolved_physical: u64,
    /// How far the least resolved timestamp is behind the timestamp of
    /// the cycle, in milliseconds.
    pub lag_ms: u64,
}

/// The time between two reports, in milliseconds.
pub const METRICS_FLUSH_INTERVAL: u64 = 1000;

impl Endpoint {
    /// Applies one batch of a region's commands.
    fn on_batch(&mut self, batch: &CmdBatch, out: &mut Vec<Effect>)
        ensures
            (final(self)@, views(final(out)@)) == old(self)@.on_batch(batch@, views(old(out)@)),
    {
        match find_region(&self.capture_regions, batch.region_id) {
            None => {},
            Some(i) => {
                assert(self@.capture_regions[i as int] == self.capture_regions@[i as int]@);
                if self.capture_regions[i].has_failed() {
                    return ;
                }
                let ghost step = old(self)@.capture_regions[i as int].on_batch(
                    batch@,
                    views(old(out)@),
                );
                match self.capture_regions[i].on_batch(batch, out) {
                    Ok(()) => {
                        assert(self@.capture_regions =~= old(self)@.capture_regions.update(
                            i as int,
                            step.0,
                        ));
                    },
                    Err(e) => {
                        self.capture_regions[i].mark_failed();
                        let observe_id = self.capture_regions[i].observe_id;
                        assert(self@.capture_regions =~= old(self)@.capture_regions.update(
                            i as int,
                            crate::delegate::DelegateView { failed: true, ..step.0 },
                        ));
                        let ghost mid = views(out@);
                        let mut more = self.on_deregister(
                            Deregister::Delegate { region_id: batch.region_id, observe_id, err: e },
                        );
                        let ghost added = views(more@);
                        out.append(&mut more);
                        assert(views(out@) =~= mid + added);
                    },
                }
            },
        }
    }

    /// Applies batches of commands to their regions, and gives their
    /// bytes back to the memory quota. A region whose batch cannot be
    /// applied is taken out with the error; the other regions go on.
    pub fn on_multi_batch(&mut self, multi: Vec<CmdBatch>) -> (out: Vec<Effect>)
        ensures
            (final(self)@, views(out@)) == old(self)@.on_multi_batch(views(multi@)),
    {
        let mut size: usize = 0;
        let mut i: usize = 0;
        assert(views(multi@).skip(0) =~= views(multi@));
        while i < multi.len()
            invariant
                i <= multi.len(),
                total_size(views(multi@).skip(i as int), size) == total_size(views(multi@), 0),
            decreases multi.len() - i,
        {
            let ghost rest = views(multi@).skip(i as int);
            assert(rest.first() == multi@[i as int]@);
            assert(rest.drop_first() =~= views(multi@).skip(i + 1));
            size = if multi[i].size <= usize::MAX - size {
                size + multi[i].size
            } else {
                usize::MAX
            };
            i += 1;
        }
        assert(views(multi@).skip(i as int).len() == 0);
        self.sink_memory_quota.free(size);
        let ghost freed = self@;
        let mut out: Vec<Effect> = Vec::new();
        assert(views(out@) =~= Seq::<EffectView>::empty());
        let mut i: usize = 0;
        while i < multi.len()
            invariant
                i <= multi.len(),
                self@.on_batches(views(multi@).skip(i as int), views(out@)) == freed.on_batches(
                    views(multi@),
                    Seq::empty(),
                ),
            decreases multi.len() - i,
        {
            let ghost rest = views(multi@).skip(i as int);
            assert(rest.first() == multi@[i as int]@);
            assert(rest.drop_first() =~= views(multi@).skip(i + 1));
            self.on_batch(&multi[i], &mut out);
            i += 1;
        }
        assert(views(multi@).skip(i as int).len() == 0);
        out
    }

    /// Takes out the subscriptions that failed, each if it still is the
    /// one with its id.
    fn deregister_failed(&mut self, region_id: u64, failed: &Vec<FailedDownstream>, out: &mut Vec<Effect>)
        ensures
            (final(self)@, views(final(out)@)) == old(self)@.deregister_failed(
                region_id,
                failed@,
                views(old(out)@),
            ),
    {
        let mut i: usize = 0;
        assert(failed@.skip(0) =~= failed@);
        while i < failed.len()
            invariant
                i <= failed.len(),
                self@.deregister_failed(region_id, failed@.skip(i as int), views(out@)) == old(
                    self,
                )@.deregister_failed(region_id, failed@, views(old(out)@)),
            decreases failed.len() - i,
        {
            let ghost rest = failed@.skip(i as int);
            assert(rest.first() == failed@[i as int]);
            assert(rest.drop_first() =~= failed@.skip(i + 1));
            let f = failed[i];
            let ghost mid = views(out@);
            let mut more = self.on_deregister(
                Deregister::Downstream {
                    conn_id: f.conn_id,
                    request_id: f.req_id,
                    region_id,
                    downstream_id: f.downstream_id,
                    err: Some(f.err),
                },
            );
            let ghost added = views(more@);
            out.append(&mut more);
            assert(views(out@) =~= mid + added);
            i += 1;
        }
        assert(failed@.skip(i as int).len() == 0);
    }

    /// Takes over the locks that a scan has read for a region.
    pub fn finish_scan_locks(&mut self, observe_id: ObserveId, region: Region, locks: Vec<KeyLock>) -> (out:
        Vec<Effect>)
        ensures
            (final(self)@, views(out@)) == old(self)@.finish_scan_locks(
                observe_id,
                region,
                views(locks@),
            ),
    {
        let mut out: Vec<Effect> = Vec::new();
        assert(views(out@) =~= Seq::<EffectView>::empty());
        match find_region(&self.capture_regions, region.id) {
            None => out,
            Some(i) => {
                assert(self@.capture_regions[i as int] == self.capture_regions@[i as int]@);
                if self.capture_regions[i].observe_id != observe_id {
                    return out;
                }
                match self.capture_regions[i].finish_scan_locks(region.region_epoch, locks) {
                    Ok(failed) => {
                        assert(self@.capture_regions =~= old(self)@.capture_regions.update(
                            i as int,
                            old(self)@.capture_regions[i as int].finish_scan_locks(
                                region.region_epoch,
                                views(locks@),
                            )->Ok_0,
                        ));
                        self.deregister_failed(region.id, &failed, &mut out);
                        out
                    },
                    Err(e) => {
                        assert(self@.capture_regions =~= old(self)@.capture_regions);
                        self.on_deregister(
                            Deregister::Delegate { region_id: region.id, observe_id, err: e },
                        )
                    },
                }
            },
        }
    }

    /// Runs a resolution cycle: gathers the resolved timestamps of the
    /// regions with the ids, bounded by `min_ts`, and sends them to the
    /// connections.
    pub fn on_min_ts(&mut self, regions: Vec<u64>, min_ts: TimeStamp, current_ts: TimeStamp) -> (out:
        Vec<Effect>)
        ensures
            (final(self)@, views(out@)) == old(self)@.on_min_ts(regions@, min_ts, current_ts),
    {
        self.current_ts = current_ts;
        let mut advance = Advance::new();
        let ghost start = self@;
        let mut i: usize = 0;
        assert(regions@.skip(0) =~= regions@);
        while i < regions.len()
            invariant
                i <= regions.len(),
                self.connections == old(self).connections,
                self@ == (EndpointView { capture_regions: self@.capture_regions, ..start }),
                gather(
                    self@.capture_regions,
                    regions@.skip(i as int),
                    min_ts,
                    self@.connections,
                    advance@,
                ) == gather(
                    old(self)@.capture_regions,
                    regions@,
                    min_ts,
                    self@.connections,
                    crate::advance::AdvanceView::new(),
                ),
            decreases regions.len() - i,
        {
            let ghost rest = regions@.skip(i as int);
            let ghost before = self@.capture_regions;
            assert(rest.first() == regions@[i as int]);
            assert(rest.drop_first() =~= regions@.skip(i + 1));
            match find_region(&self.capture_regions, regions[i]) {
                Some(d) => {
                    assert(self@.capture_regions[d as int] == self.capture_regions@[d as int]@);
                    self.capture_regions[d].on_min_ts(min_ts, &self.connections, &mut advance);
                    assert(self@.capture_regions =~= before.update(
                        d as int,
                        before[d as int].advanced(min_ts),
                    ));
                },
                None => {},
            }
            i += 1;
        }
        assert(regions@.skip(i as int).len() == 0);
        self.resolved_region_count = advance.scan_finished;
        self.unresolved_region_count = advance.blocked_on_scan;
        let out = advance.emit_resolved_ts(&self.connections);
        self.min_resolved_ts = TimeStamp(advance.min_resolved_ts);
        self.min_ts_region_id = advance.min_ts_region_id;
        out
    }

    /// Takes a connection in.
    pub fn on_open_conn(&mut self, conn: Conn)
        ensures
            final(self)@ == old(self)@.on_open_conn(conn@),
    {
        match find_conn(&self.connections, conn.id) {
            Some(c) => {
                self.connections[c] = conn;
                assert(self@.connections =~= old(self)@.connections.update(c as int, conn@));
            },
            None => {
                self.connections.push(conn);
                assert(self@.connections =~= old(self)@.connections.push(conn@));
            },
        }
    }

    /// Records the version that a connection announces. Nothing happens
    /// if the connection is not there.
    pub fn on_set_conn_version(&mut self, conn_id: ConnId, version: Version, explicit_features: Vec<String>)
        ensures
            final(self)@ == old(self)@.on_set_conn_version(
                conn_id,
                version,
                explicit_features@.map_values(|s: String| s@),
            ),
    {
        match find_conn(&self.connections, conn_id) {
            Some(c) => {
                assert(self@.connections[c as int] == self.connections@[c as int]@);
                let _ = self.connections[c].check_version_and_set_feature(version, &explicit_features);
                assert(self@.connections =~= old(self)@.connections.update(
                    c as int,
                    old(self)@.connections[c as int].check_version_and_set_feature(
                        version,
                        explicit_features@.map_values(|s: String| s@),
                    ),
                ));
            },
            None => {},
        }
    }

    /// Handles the report of a subscription's scan.
    pub fn on_init_downstream(&mut self, region_id: u64, observe_id: ObserveId, downstream_id: DownstreamId) -> (out:
        Vec<Effect>)
        ensures
            (final(self)@, views(out@)) == old(self)@.on_init_downstream(
                region_id,
                observe_id,
                downstream_id,
            ),
    {
        let mut out: Vec<Effect> = Vec::new();
        let halt = Effect::ScanInit { region_id, downstream_id, build_resolver: false, proceed: false };
        let i = match find_region(&self.capture_regions, region_id) {
            Some(i) => i,
            None => {
                out.push(halt);
                assert(views(out@) =~= seq![halt@]);
                return out;
            },
        };
        assert(self@.capture_regions[i as int] == self.capture_regions@[i as int]@);
        if self.capture_regions[i].observe_id != observe_id {
            out.push(halt);
            assert(views(out@) =~= seq![halt@]);
            return out;
        }
        let ghost d = old(self)@.capture_regions[i as int];
        let ghost prepared = d.init_lock_tracker();
        let build_resolver = self.capture_regions[i].init_lock_tracker();
        let sink = match self.capture_regions[i].position(downstream_id) {
            Some(k) => {
                assert(prepared.downstreams[k as int] == self.capture_regions@[i as int].downstreams@[k as int]@);
                let conn_id = self.capture_regions[i].downstreams[k].conn_id;
                if find_conn(&self.connections, conn_id).is_some() {
                    Some((k, conn_id))
                } else {
                    None
                }
            },
            None => None,
        };
        match sink {
            None => {
                let effect = Effect::ScanInit { region_id, downstream_id, build_resolver, proceed: false };
                out.push(effect);
                assert(views(out@) =~= seq![effect@]);
                assert(self@.capture_regions =~= old(self)@.capture_regions.update(i as int, prepared));
            },
            Some((k, conn_id)) => {
                let barrier = Effect::Send { conn_id, event: CdcEvent::Barrier };
                let effect = Effect::ScanInit { region_id, downstream_id, build_resolver, proceed: true };
                self.capture_regions[i].downstreams[k].state.finish_scan();
                out.push(barrier);
                out.push(effect);
                assert(views(out@) =~= seq![barrier@, effect@]);
                assert(self@.capture_regions[i as int].downstreams =~= prepared.downstreams.update(
                    k as int,
                    crate::downstream::DownstreamView {
                        state: prepared.downstreams[k as int].state.spec_finish_scan(),
                        ..prepared.downstreams[k as int]
                    },
                ));
                assert(self@.capture_regions =~= old(self)@.capture_regions.update(
                    i as int,
                    crate::delegate::DelegateView {
                        downstreams: prepared.downstreams.update(
                            k as int,
                            crate::downstream::DownstreamView {
                                state: prepared.downstreams[k as int].state.spec_finish_scan(),
                                ..prepared.downstreams[k as int]
                            },
                        ),
                        ..prepared
                    },
                ));
            },
        }
        out
    }

    /// Answers a question about the engine's state.
    pub fn on_validate(&self, validate: Validate) -> (r: ValidateReply)
        ensures
            r == self@.on_validate(validate),
    {
        match validate {
            Validate::Region(region_id) => ValidateReply::Region {
                region_id,
                delegate: match find_region(&self.capture_regions, region_id) {
                    Some(i) => {
                        assert(self@.capture_regions[i as int] == self.capture_regions@[i as int]@);
                        Some(self.capture_regions[i].summary())
                    },
                    None => None,
                },
            },
            Validate::OldValueCache => ValidateReply::OldValueCache {
                capacity: self.old_value_cache_capacity,
            },
            Validate::UnresolvedRegion => ValidateReply::UnresolvedRegion(
                self.unresolved_region_count,
            ),
        }
    }

    /// Changes the settings. The new values are made valid first; then
    /// each limit whose setting differs from what it was is adjusted.
    pub fn on_change_cfg(&mut self, change: ConfigChange) -> (out: Vec<Effect>)
        ensures
            final(self)@ == old(self)@.on_change_cfg(change),
            views(out@) == old(self)@.config_effects(change),
    {
        let mut validate_cfg = self.config;
        validate_cfg.update(change);
        validate_cfg.validate(self.raftstore_v2);
        let change = self.config.diff(&validate_cfg);
        self.config.update(change);
        proof {
            crate::config::lemma_update_diff(old(self).config, validate_cfg);
        }
        let mut out: Vec<Effect> = Vec::new();
        assert(views(out@) =~= Seq::<EffectView>::empty());
        if let Some(bytes) = change.old_value_cache_memory_quota {
            self.old_value_cache_capacity = bytes;
            let ghost mid = views(out@);
            out.push(Effect::ResizeOldValueCache(bytes));
            assert(views(out@) =~= mid + seq![EffectView::ResizeOldValueCache(bytes)]);
        } else {
            assert(views(out@) =~= views(out@) + Seq::<EffectView>::empty());
        }
        let ghost cache = views(out@);
        if let Some(n) = change.incremental_scan_concurrency {
            self.scan_concurrency = n;
            out.push(Effect::SetScanConcurrency(n));
            assert(views(out@) =~= cache + seq![EffectView::SetScanConcurrency(n)]);
        } else {
            assert(views(out@) =~= cache + Seq::<EffectView>::empty());
        }
        if let Some(bytes) = change.sink_memory_quota {
            let capacity = if bytes > usize::MAX as u64 {
                usize::MAX
            } else {
                bytes as usize
            };
            self.sink_memory_quota.set_capacity(capacity);
        }
        let ghost concurrency = views(out@);
        if let Some(bytes) = change.incremental_scan_speed_limit {
            self.scan_speed_limit = bytes;
            out.push(Effect::SetScanSpeedLimit(bytes));
            assert(views(out@) =~= concurrency + seq![EffectView::SetScanSpeedLimit(bytes)]);
        } else {
            assert(views(out@) =~= concurrency + Seq::<EffectView>::empty());
        }
        let ghost scan = views(out@);
        if let Some(bytes) = change.incremental_fetch_speed_limit {
            self.fetch_speed_limit = bytes;
            out.push(Effect::SetFetchSpeedLimit(bytes));
            assert(views(out@) =~= scan + seq![EffectView::SetFetchSpeedLimit(bytes)]);
        } else {
            assert(views(out@) =~= scan + Seq::<EffectView>::empty());
        }
        out
    }

    /// Tells whether the message brings what keeps the engine's tables in
    /// agreement: a registration whose subscription has the request id of
    /// its request and an id that is not in use in its region, or a
    /// connection with an id that is not in use and without
    /// subscriptions. Every other message does.
    pub fn admits(&self, task: &Task) -> (r: bool)
        ensures
            r == admissible(self@, task@),
    {
        match task {
            Task::Register { request, downstream } => {
                if downstream.req_id.0 != request.request_id {
                    return false;
                }
                match find_region(&self.capture_regions, request.region_id) {
                    Some(i) => {
                        assert(self@.capture_regions[i as int] == self.capture_regions@[i as int]@);
                        self.capture_regions[i].position(downstream.id).is_none()
                    },
                    None => true,
                }
            },
            Task::OpenConn { conn } => {
                find_conn(&self.connections, conn.id).is_none() && conn.exclusive.len() == 0
                    && conn.multiplexed.len() == 0
            },
            _ => true,
        }
    }

    /// Handles one message, and returns what the surroundings are to do,
    /// in order. An engine whose tables are in shape and in agreement
    /// stays so, if the message is one that the engine admits.
    pub fn run(&mut self, task: Task) -> (out: Vec<Effect>)
        ensures
            (final(self)@, views(out@)) == old(self)@.run(task@),
            old(self)@.coherent() && admissible(old(self)@, task@) ==> final(self)@.coherent(),
    {
        proof {
            if self@.coherent() && admissible(self@, task@) {
                lemma_run_coherent(self@, task@);
            }
        }
        match task {
            Task::MinTs { regions, min_ts, current_ts } => self.on_min_ts(regions, min_ts, current_ts),
            Task::Register { request, downstream } => self.on_register(request, downstream),
            Task::FinishScanLocks { observe_id, region, locks } => self.finish_scan_locks(
                observe_id,
                region,
                locks,
            ),
            Task::Deregister(deregister) => self.on_deregister(deregister),
            Task::MultiBatch { multi } => self.on_multi_batch(multi),
            Task::OpenConn { conn } => {
                self.on_open_conn(conn);
                let out: Vec<Effect> = Vec::new();
                assert(views(out@) =~= Seq::<EffectView>::empty());
                out
            },
            Task::SetConnVersion { conn_id, version, explicit_features } => {
                self.on_set_conn_version(conn_id, version, explicit_features);
                let out: Vec<Effect> = Vec::new();
                assert(views(out@) =~= Seq::<EffectView>::empty());
                out
            },
            Task::RegisterMinTsEvent { elapsed_ms } => self.register_min_ts_event(elapsed_ms),
            Task::InitDownstream { region_id, observe_id, downstream_id } => self.on_init_downstream(
                region_id,
                observe_id,
                downstream_id,
            ),
            Task::TxnExtra { size } => {
                self.sink_memory_quota.free(size);
                let out: Vec<Effect> = Vec::new();
                assert(views(out@) =~= Seq::<EffectView>::empty());
                out
            },
            Task::Validate(validate) => {
                let effect = Effect::Validated(self.on_validate(validate));
                let mut out: Vec<Effect> = Vec::new();
                out.push(effect);
                assert(views(out@) =~= seq![effect@]);
                out
            },
            Task::ChangeConfig(change) => self.on_change_cfg(change),
        }
    }

    /// Reports on the engine, and forgets the least resolved timestamp of
    /// the cycles so far.
    pub fn on_timeout(&mut self) -> (r: Metrics)
        ensures
            r == old(self)@.metrics(),
            final(self)@ == old(self)@.on_timeout(),
    {
        let min_resolved = if self.min_resolved_ts.0 != u64::MAX {
            let resolved_physical = self.min_resolved_ts.physical();
            let current_physical = self.current_ts.physical();
            Some(
                MinResolved {
                    region_id: self.min_ts_region_id,
                    resolved_physical,
                    lag_ms: if current_physical >= resolved_physical {
                        current_physical - resolved_physical
                    } else {
                        0
                    },
                },
            )
        } else {
            None
        };
        let metrics = Metrics {
            captured_region_count: self.capture_regions.len(),
            resolved_region_count: self.resolved_region_count,
            unresolved_region_count: self.unresolved_region_count,
            min_resolved,
            sink_bytes: self.sink_memory_quota.in_use(),
        };
        self.min_resolved_ts = TimeStamp(u64::MAX);
        self.current_ts = TimeStamp(u64::MAX);
        self.min_ts_region_id = 0;
        metrics
    }

    /// The time between two reports, in milliseconds.
    pub fn get_interval(&self) -> (r: u64)
        ensures
            r == METRICS_FLUSH_INTERVAL,
    {
        METRICS_FLUSH_INTERVAL
    }
}

impl EndpointView {
    /// What the engine reports of itself.
    pub open spec fn metrics(self) -> Metrics {
        Metrics {
            captured_region_count: self.capture_regions.len() as usize,
            resolved_region_count: self.resolved_region_count,
            unresolved_region_count: self.unresolved_region_count,
            min_resolved: if self.min_resolved_ts.0 != u64::MAX {
                let resolved = self.min_resolved_ts.0 / crate::timestamp::TSO_LOGICAL_SPAN;
                let current = self.current_ts.0 / crate::timestamp::TSO_LOGICAL_SPAN;
                Some(
                    MinResolved {
                        region_id: self.min_ts_region_id,
                        resolved_physical: resolved as u64,
                        lag_ms: if current >= resolved {
                            (current - resolved) as u64
                        } else {
                            0
                        },
                    },
                )
            } else {
                None
            },
            sink_bytes: self.sink_memory_quota.in_use,
        }
    }

    /// The engine after a report.
    pub open spec fn on_timeout(self) -> EndpointView {
        EndpointView {
            min_resolved_ts: TimeStamp(u64::MAX),
            current_ts: TimeStamp(u64::MAX),
            min_ts_region_id: 0,
            ..self
        }
    }
}

} // verus!
