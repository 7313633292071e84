use cdc::advance::Advance;
use cdc::batch::{Cmd, CmdBatch};
use cdc::config::{CdcConfig, ConfigChange};
use cdc::conn::Conn;
use cdc::delegate::Delegate;
use cdc::downstream::{validate_kv_api, ApiVersion, Downstream, DownstreamState, KvApi};
use cdc::effect::{DelegateSummary, Effect, ValidateReply};
use cdc::endpoint::{Endpoint, Metrics, MinResolved};
use cdc::error::{BusyReason, Error, EventError, RegionEpoch, RegionError};
use cdc::event::{CdcEvent, Event, EventKind, ResolvedTs, Row, RowKind};
use cdc::feature::{Feature, FeatureGate};
use cdc::heap::ResolvedRegionHeap;
use cdc::ids::{ConnId, DownstreamId, ObserveId, RequestId};
use cdc::initializer::Initializer;
use cdc::keys::{key_eq, key_lt, ObservedRange};
use cdc::lock::{KeyLock, LockTracker, MiniLock, PendingLock};
use cdc::min_ts::{candidate, resolve_method, Cycle, CycleAction, CycleEvent, Phase, ResolveMethod, ScheduleResult};
use cdc::quota::MemoryQuota;
use cdc::scheduler::CdcTxnExtraScheduler;
use cdc::task::{ChangeDataRequest, Deregister, Region, Task, Validate};
use cdc::timestamp::TimeStamp;
use cdc::version::Version;

fn endpoint(cfg: &CdcConfig) -> Endpoint {
    Endpoint::new(7, cfg, 1000, false, ApiVersion::V1, MemoryQuota::new(1 << 20), false).0
}

fn open(ep: &mut Endpoint, conn: usize, version: Version, features: &[&str]) -> ConnId {
    let conn_id = ConnId(conn);
    assert!(ep.run(Task::OpenConn { conn: Conn::new(conn_id) }).is_empty());
    let explicit_features = features.iter().map(|f| f.to_string()).collect();
    assert!(ep.run(Task::SetConnVersion { conn_id, version, explicit_features }).is_empty());
    conn_id
}

fn request(region_id: u64, request_id: u64) -> ChangeDataRequest {
    ChangeDataRequest { cluster_id: 7, region_id, request_id, ..ChangeDataRequest::default() }
}

fn downstream(id: usize, conn_id: ConnId, request_id: u64, range: ObservedRange) -> Downstream {
    Downstream::new(
        DownstreamId(id),
        RegionEpoch::default(),
        RequestId(request_id),
        conn_id,
        KvApi::TiDb,
        false,
        range,
    )
}

/// Registers a subscription and takes it through its scan.
fn subscribe(ep: &mut Endpoint, id: usize, conn_id: ConnId, region_id: u64, request_id: u64) -> ObserveId {
    ep.add_local_reader(region_id);
    let effects = ep.run(Task::Register {
        request: request(region_id, request_id),
        downstream: downstream(id, conn_id, request_id, ObservedRange::all()),
    });
    let observe_id = match effects.last() {
        Some(Effect::SpawnScan(task)) => task.observe_id,
        other => panic!("not accepted: {:?}", other),
    };
    let effects = ep.run(Task::InitDownstream { region_id, observe_id, downstream_id: DownstreamId(id) });
    assert_eq!(effects.len(), 2);
    ep.run(Task::FinishScanLocks {
        observe_id,
        region: Region { id: region_id, region_epoch: RegionEpoch::default() },
        locks: vec![],
    });
    ep.release_scan_task();
    observe_id
}

fn row(kind: RowKind, key: &[u8], start_ts: u64, commit_ts: u64) -> Row {
    Row {
        kind,
        key: key.to_vec(),
        value: vec![1, 2, 3],
        start_ts: TimeStamp::new(start_ts),
        commit_ts: TimeStamp::new(commit_ts),
    }
}

fn error_event(conn_id: ConnId, region_id: u64, request_id: u64, err: EventError) -> Effect {
    Effect::Send { conn_id, event: CdcEvent::Event(Event { region_id, request_id, event: EventKind::Error(err) }) }
}

fn batch_event(conn_id: ConnId, request_id: u64, ts: u64, regions: Vec<u64>) -> Effect {
    Effect::Send { conn_id, event: CdcEvent::ResolvedTs(ResolvedTs { ts, request_id, regions }) }
}

#[test]
fn version_order_follows_semver() {
    let v = Version::new(4, 0, 8);
    assert!(v.reaches(4, 0, 8));
    assert!(v.reaches(4, 0, 7));
    assert!(v.reaches(3, 9, 9));
    assert!(!v.reaches(4, 0, 9));
    assert!(!v.reaches(4, 1, 0));
    assert!(!v.reaches(5, 0, 0));
    assert!(Version::new(10, 0, 0).reaches(9, 99, 99));
    assert!(!Version::new(1, 19, 0).reaches(1, 20, 0));
    assert!(Version::new(1, 19, 0).reaches(1, 5, 0));
    assert!(Version::new(u64::MAX, 0, 0).reaches(u64::MAX, 0, 0));
    // A pre-release comes before its release, and after every earlier one.
    let pre = Version { major: 4, minor: 0, patch: 8, pre_release: true };
    assert!(!pre.reaches(4, 0, 8));
    assert!(pre.reaches(4, 0, 7));
}

#[test]
fn features_by_version() {
    assert_eq!(FeatureGate::default_features(&Version::new(4, 0, 7)), FeatureGate::empty());
    let batch = FeatureGate::default_features(&FeatureGate::batch_resolved_ts());
    assert!(batch.contains(Feature::BatchResolvedTs));
    assert!(!batch.contains(Feature::ValidateClusterId));
    assert!(!batch.contains(Feature::StreamMultiplexing));
    let validate = FeatureGate::default_features(&FeatureGate::validate_cluster_id());
    assert!(validate.contains(Feature::BatchResolvedTs));
    assert!(validate.contains(Feature::ValidateClusterId));
    assert_eq!(FeatureGate::batch_resolved_ts(), Version::new(4, 0, 8));
    assert_eq!(FeatureGate::validate_cluster_id(), Version::new(5, 3, 0));
    let mut gate = FeatureGate::empty();
    gate.set(Feature::StreamMultiplexing, true);
    assert!(gate.contains(Feature::StreamMultiplexing));
    gate.set(Feature::StreamMultiplexing, false);
    assert_eq!(gate, FeatureGate::empty());
}

#[test]
fn first_version_settles_the_connection() {
    let mut conn = Conn::new(ConnId(1));
    assert_eq!(conn.features(), FeatureGate::empty());
    let names = vec!["other".to_string(), "stream-multiplexing".to_string()];
    assert_eq!(conn.check_version_and_set_feature(Version::new(4, 0, 8), &names), None);
    assert!(conn.features().contains(Feature::BatchResolvedTs));
    assert!(conn.features().contains(Feature::StreamMultiplexing));
    assert!(!conn.features().contains(Feature::ValidateClusterId));
    // The same version again is fine, another one is refused.
    assert_eq!(conn.check_version_and_set_feature(Version::new(4, 0, 8), &vec![]), None);
    assert_eq!(
        conn.check_version_and_set_feature(Version::new(5, 3, 0), &vec![]),
        Some(EventError::Compatibility { required_version: Version::new(4, 0, 8) })
    );
    assert!(!conn.features().contains(Feature::ValidateClusterId));
    assert!(conn.features().contains(Feature::StreamMultiplexing));
}

#[test]
fn conn_table() {
    let mut conn = Conn::new(ConnId(3));
    assert_eq!(conn.get_id(), ConnId(3));
    assert_eq!(conn.subscribe(RequestId(1), 10, DownstreamId(100)), None);
    assert_eq!(conn.subscribe(RequestId(1), 11, DownstreamId(101)), None);
    assert_eq!(conn.subscribe(RequestId(2), 10, DownstreamId(102)), None);
    assert_eq!(conn.subscribe(RequestId(1), 10, DownstreamId(103)), Some(DownstreamId(100)));
    assert_eq!(conn.downstreams_count(), 3);
    assert_eq!(conn.get_downstream(RequestId(1), 10), Some(DownstreamId(100)));
    assert_eq!(conn.get_downstream(RequestId(2), 11), None);
    assert_eq!(conn.unsubscribe(RequestId(2), 11), None);
    assert_eq!(conn.unsubscribe_request(RequestId(1)), vec![(10, DownstreamId(100)), (11, DownstreamId(101))]);
    assert_eq!(conn.subscriptions().len(), 1);
    assert_eq!(conn.unsubscribe(RequestId(2), 10), Some(DownstreamId(102)));
    assert_eq!(conn.downstreams_count(), 0);
}

#[test]
fn timestamp_parts() {
    let ts = TimeStamp::compose(1, 2);
    assert_eq!(ts.into_inner(), 262146);
    assert_eq!(ts.physical(), 1);
    assert_eq!(ts.logical(), 2);
    assert_eq!(TimeStamp::compose(70368744177663, 262143).into_inner(), u64::MAX);
    // A counter beyond its eighteen bits carries over into the physical part.
    let carried = TimeStamp::compose(1, 262144 + 5);
    assert_eq!(carried.into_inner(), 2 * 262144 + 5);
    assert_eq!((carried.physical(), carried.logical()), (2, 5));
    assert_eq!(TimeStamp::compose(0, u64::MAX), TimeStamp::max());
    assert!(TimeStamp::max().is_max());
    assert!(TimeStamp::zero().is_zero());
    assert!(!TimeStamp::new(5).is_zero());
    assert_eq!(TimeStamp::new(4096 << 18).physical(), 4096);
}

#[test]
fn key_order() {
    assert!(key_lt(&vec![], &vec![0]));
    assert!(!key_lt(&vec![], &vec![]));
    assert!(!key_lt(&vec![0], &vec![]));
    assert!(key_lt(&vec![1, 2], &vec![1, 3]));
    assert!(key_lt(&vec![1, 2], &vec![1, 2, 0]));
    assert!(!key_lt(&vec![1, 2, 0], &vec![1, 2]));
    assert!(key_lt(&vec![1, 255], &vec![2]));
    assert!(!key_lt(&vec![2], &vec![1, 255]));
    assert!(key_eq(&vec![7, 8], &vec![7, 8]));
    assert!(!key_eq(&vec![7, 8], &vec![7]));
    assert!(!key_eq(&vec![7, 8], &vec![7, 9]));
}

#[test]
fn observed_range_bounds() {
    let range = ObservedRange::new(vec![b'b'], vec![b'd']);
    assert!(!range.contains(&vec![b'a']));
    assert!(!range.contains(&vec![]));
    assert!(range.contains(&vec![b'b']));
    assert!(range.contains(&vec![b'c', 9]));
    assert!(!range.contains(&vec![b'd']));
    assert!(!range.contains(&vec![b'e']));
    let open_ended = ObservedRange::new(vec![b'b'], vec![]);
    assert!(open_ended.contains(&vec![255, 255]));
    assert!(!open_ended.contains(&vec![b'a', 255]));
    assert!(ObservedRange::all().contains(&vec![]));
    assert!(ObservedRange::all().contains(&vec![255]));
    assert_eq!(range.duplicate(), range);
}

#[test]
fn kv_api_by_api_version() {
    for api_version in [ApiVersion::V1, ApiVersion::V1ttl, ApiVersion::V2] {
        assert!(validate_kv_api(KvApi::TiDb, api_version));
        assert!(!validate_kv_api(KvApi::TxnKv, api_version));
    }
    assert!(!validate_kv_api(KvApi::RawKv, ApiVersion::V1));
    assert!(!validate_kv_api(KvApi::RawKv, ApiVersion::V1ttl));
    assert!(validate_kv_api(KvApi::RawKv, ApiVersion::V2));
}

#[test]
fn downstream_lifecycle() {
    let mut state = DownstreamState::Uninitialized;
    assert!(!state.ready_for_change_events());
    assert!(!state.finish_scan());
    assert_eq!(state, DownstreamState::Uninitialized);
    assert!(state.start_scan());
    assert_eq!(state, DownstreamState::Initializing);
    assert!(state.ready_for_change_events());
    assert!(!state.ready_for_advancing_ts());
    assert!(!state.start_scan());
    assert!(state.finish_scan());
    assert_eq!(state, DownstreamState::Normal);
    assert!(state.ready_for_advancing_ts());
    state.stop();
    assert_eq!(state, DownstreamState::Stopped);
    // A move that loses the race against the stop does nothing.
    assert!(!state.start_scan());
    assert!(!state.finish_scan());
    assert_eq!(state, DownstreamState::Stopped);
    assert!(!state.ready_for_change_events());
}

#[test]
fn error_to_event() {
    let epoch = RegionEpoch { conf_ver: 3, version: 4 };
    assert_eq!(
        Error::Request(RegionError::NotLeader { region_id: 9 }).into_error_event(1),
        EventError::NotLeader { region_id: 9 }
    );
    assert_eq!(
        Error::Request(RegionError::EpochNotMatch { current: epoch }).into_error_event(1),
        EventError::EpochNotMatch { current: epoch }
    );
    for err in [
        Error::Request(RegionError::RegionNotFound { region_id: 9 }),
        Error::Request(RegionError::ServerIsBusy),
        Error::Request(RegionError::StaleCommand),
        Error::Request(RegionError::Other),
        Error::Rocks,
        Error::Sink(cdc::error::SendError::Congested),
        Error::MemoryQuotaExceeded,
        Error::Corrupted,
        Error::Other,
    ] {
        assert_eq!(err.into_error_event(1), EventError::RegionNotFound { region_id: 1 });
    }
    assert_eq!(BusyReason::ObserveIdsExhausted.message(), "no observation epoch left");
}

#[test]
fn memory_quota_budget() {
    let mut quota = MemoryQuota::new(100);
    assert_eq!(quota.allocate(60), Ok(()));
    assert_eq!(quota.allocate(41), Err(Error::MemoryQuotaExceeded));
    assert_eq!(quota.in_use(), 60);
    assert_eq!(quota.allocate(40), Ok(()));
    assert_eq!(quota.in_use(), 100);
    quota.free(30);
    assert_eq!(quota.in_use(), 70);
    quota.free(1000);
    assert_eq!(quota.in_use(), 0);
    quota.set_capacity(10);
    assert_eq!(quota.capacity(), 10);
    assert_eq!(quota.allocate(usize::MAX), Err(Error::MemoryQuotaExceeded));
    assert_eq!(MemoryQuota::new(usize::MAX).capacity(), isize::MAX as usize);
}

#[test]
fn txn_extra_needs_room() {
    let mut quota = MemoryQuota::new(10);
    let mut scheduler = CdcTxnExtraScheduler::new();
    assert_eq!(scheduler.schedule(&mut quota, 6), Some(Task::TxnExtra { size: 6 }));
    assert_eq!(scheduler.schedule(&mut quota, 6), None);
    assert_eq!(scheduler.dropped, 1);
    assert_eq!(quota.in_use(), 6);
    // The engine gives the bytes back when it has taken the old values.
    let mut ep = endpoint(&CdcConfig::default_config());
    ep.sink_memory_quota = quota;
    assert!(ep.run(Task::TxnExtra { size: 6 }).is_empty());
    assert_eq!(ep.sink_memory_quota.in_use(), 0);
}

#[test]
fn heap_order_is_stable_and_regions_are_distinct() {
    let mut heap = ResolvedRegionHeap::new();
    heap.push(1, TimeStamp::new(7));
    heap.push(2, TimeStamp::new(7));
    heap.push(3, TimeStamp::new(5));
    heap.push(1, TimeStamp::new(9));
    heap.push(4, TimeStamp::new(7));
    assert_eq!(heap.len(), 5);
    assert_eq!(heap.peek().map(|r| r.region_id), Some(3));
    assert_eq!(heap.pop(2), (TimeStamp::new(5), vec![3, 1]));
    assert_eq!(heap.pop(usize::MAX), (TimeStamp::new(7), vec![2, 4, 1]));
    assert!(heap.is_empty());
    assert_eq!(heap.pop(1), (TimeStamp::max(), vec![]));
    assert_eq!(heap.peek(), None);
    let copy = {
        heap.push(8, TimeStamp::new(1));
        heap.clone()
    };
    assert_eq!(copy, heap);
}

#[test]
fn lock_tracker_phases() {
    let lock = |key: u8, ts: u64| KeyLock { key: vec![key], lock: MiniLock::from_ts(TimeStamp::new(ts)) };
    let track = |key: u8, ts: u64| PendingLock::Track { key: vec![key], start_ts: MiniLock::from_ts(TimeStamp::new(ts)) };
    let untrack = |key: u8| PendingLock::Untrack { key: vec![key] };

    let mut tracker = LockTracker::Pending;
    assert_eq!(tracker.min_ts(), None);
    // Before the first scan no change can be taken.
    assert_eq!(tracker.change(track(1, 10)), Err(Error::Corrupted));
    assert!(tracker.init());
    assert!(!tracker.init());
    assert_eq!(tracker.change(track(1, 10)), Ok(()));
    assert_eq!(tracker.change(untrack(2)), Ok(()));
    assert_eq!(tracker.change(track(3, 30)), Ok(()));
    assert!(!tracker.is_prepared());
    assert_eq!(tracker.min_ts(), None);

    let epoch = RegionEpoch { conf_ver: 1, version: 1 };
    // The scan has seen key 2 locked and key 1 locked by the same transaction.
    assert_eq!(tracker.finish(epoch, vec![lock(2, 5), lock(1, 10)]), Ok(()));
    assert_eq!(tracker, LockTracker::Prepared { epoch, locks: vec![lock(1, 10), lock(3, 30)] });
    assert_eq!(tracker.min_ts(), Some(10));
    assert_eq!(tracker.change(untrack(1)), Ok(()));
    assert_eq!(tracker.min_ts(), Some(30));
    assert_eq!(tracker.change(track(3, 30)), Ok(()));
    // Another transaction cannot hold a key that is held.
    assert_eq!(tracker.change(track(3, 31)), Err(Error::Corrupted));
    assert_eq!(tracker, LockTracker::Prepared { epoch, locks: vec![lock(3, 30)] });
    // Locks that arrive a second time are ignored.
    assert_eq!(tracker.finish(RegionEpoch::default(), vec![]), Ok(()));
    assert_eq!(tracker.min_ts(), Some(30));

    let mut conflicting = LockTracker::Pending;
    conflicting.init();
    conflicting.change(track(1, 10)).unwrap();
    assert_eq!(conflicting.finish(epoch, vec![lock(1, 11)]), Err(Error::Corrupted));
    assert!(!conflicting.is_prepared());

    let mut unscanned = LockTracker::Pending;
    assert_eq!(unscanned.finish(epoch, vec![lock(1, 11)]), Ok(()));
    assert_eq!(unscanned.min_ts(), Some(11));
}

#[test]
fn register_refusals() {
    let mut ep = endpoint(&CdcConfig::default_config());
    let old = open(&mut ep, 1, Version::new(4, 0, 8), &[]);
    let new = open(&mut ep, 2, Version::new(5, 3, 0), &[]);
    ep.add_local_reader(1);

    // An older client's cluster id is not looked at.
    let mut req = request(1, 1);
    req.cluster_id = 8;
    let effects = ep.run(Task::Register { request: req, downstream: downstream(1, old, 1, ObservedRange::all()) });
    assert!(matches!(effects.last(), Some(Effect::SpawnScan(_))));
    // A newer client's is.
    let effects = ep.run(Task::Register { request: req, downstream: downstream(2, new, 1, ObservedRange::all()) });
    assert_eq!(effects, vec![error_event(new, 1, 1, EventError::ClusterIdMismatch { current: 7, request: 8 })]);

    let effects = ep.run(Task::Register { request: request(2, 1), downstream: downstream(3, new, 1, ObservedRange::all()) });
    assert_eq!(effects, vec![error_event(new, 2, 1, EventError::RegionNotFound { region_id: 2 })]);

    ep.add_local_reader(2);
    ep.next_observe_id = u64::MAX;
    let effects = ep.run(Task::Register { request: request(2, 1), downstream: downstream(3, new, 1, ObservedRange::all()) });
    assert_eq!(
        effects,
        vec![error_event(new, 2, 1, EventError::ServerIsBusy { reason: BusyReason::ObserveIdsExhausted })]
    );
    // A region that is captured already needs no new epoch.
    let effects = ep.run(Task::Register { request: request(1, 1), downstream: downstream(3, new, 1, ObservedRange::all()) });
    assert_eq!(effects.len(), 1);
    assert!(matches!(effects.last(), Some(Effect::SpawnScan(_))));
    assert_eq!(ep.capture_regions.len(), 1);
    assert_eq!(ep.capture_regions[0].downstreams().len(), 2);
    assert_eq!(ep.scan_task_count, 2);
}

#[test]
fn register_on_prepared_region_checks_the_epoch() {
    let mut ep = endpoint(&CdcConfig::default_config());
    let conn = open(&mut ep, 1, Version::new(4, 0, 8), &[]);
    ep.add_local_reader(1);
    let mut req = request(1, 1);
    req.region_epoch = RegionEpoch { conf_ver: 1, version: 5 };
    let mut first = downstream(1, conn, 1, ObservedRange::all());
    first.region_epoch = req.region_epoch;
    let effects = ep.run(Task::Register { request: req, downstream: first });
    let observe_id = match effects.last() {
        Some(Effect::SpawnScan(task)) => {
            assert_eq!(task.region_epoch, req.region_epoch);
            assert_eq!(task.max_scan_batch_bytes, 1024 * 1024);
            assert_eq!(task.max_scan_batch_size, 1024);
            task.observe_id
        }
        other => panic!("{:?}", other),
    };
    ep.run(Task::InitDownstream { region_id: 1, observe_id, downstream_id: DownstreamId(1) });
    let region = Region { id: 1, region_epoch: req.region_epoch };
    assert!(ep.run(Task::FinishScanLocks { observe_id, region, locks: vec![] }).is_empty());

    let mut stale = downstream(2, conn, 2, ObservedRange::all());
    stale.region_epoch = RegionEpoch { conf_ver: 1, version: 4 };
    let effects = ep.run(Task::Register { request: request(1, 2), downstream: stale });
    assert_eq!(effects, vec![error_event(conn, 1, 2, EventError::EpochNotMatch { current: req.region_epoch })]);
    assert_eq!(ep.connections[0].downstreams_count(), 1);
    assert_eq!(ep.capture_regions[0].downstreams().len(), 1);
}

#[test]
fn init_downstream_hands_out_the_lock_scan_once() {
    let mut ep = endpoint(&CdcConfig::default_config());
    let conn = open(&mut ep, 1, Version::new(4, 0, 8), &[]);
    ep.add_local_reader(1);
    ep.run(Task::Register { request: request(1, 1), downstream: downstream(1, conn, 1, ObservedRange::all()) });
    ep.run(Task::Register { request: request(1, 2), downstream: downstream(2, conn, 2, ObservedRange::all()) });
    let observe_id = ep.capture_regions[0].observe_id;
    assert_eq!(ep.capture_regions[0].downstreams()[0].get_state(), DownstreamState::Initializing);

    let effects = ep.run(Task::InitDownstream { region_id: 1, observe_id, downstream_id: DownstreamId(1) });
    assert_eq!(
        effects,
        vec![
            Effect::Send { conn_id: conn, event: CdcEvent::Barrier },
            Effect::ScanInit { region_id: 1, downstream_id: DownstreamId(1), build_resolver: true, proceed: true },
        ]
    );
    assert_eq!(ep.capture_regions[0].downstreams()[0].get_state(), DownstreamState::Normal);
    assert_eq!(ep.capture_regions[0].downstreams()[1].get_state(), DownstreamState::Initializing);

    let effects = ep.run(Task::InitDownstream { region_id: 1, observe_id, downstream_id: DownstreamId(2) });
    assert_eq!(
        effects,
        vec![
            Effect::Send { conn_id: conn, event: CdcEvent::Barrier },
            Effect::ScanInit { region_id: 1, downstream_id: DownstreamId(2), build_resolver: false, proceed: true },
        ]
    );

    // A scan of an epoch that is over, or of a subscription that is gone,
    // is told to stop.
    let halt = |downstream_id| Effect::ScanInit { region_id: 1, downstream_id, build_resolver: false, proceed: false };
    let before = ep.clone();
    let stale = ObserveId(observe_id.0 + 1);
    assert_eq!(
        ep.run(Task::InitDownstream { region_id: 1, observe_id: stale, downstream_id: DownstreamId(1) }),
        vec![halt(DownstreamId(1))]
    );
    assert_eq!(
        ep.run(Task::InitDownstream { region_id: 2, observe_id, downstream_id: DownstreamId(1) }),
        vec![Effect::ScanInit { region_id: 2, downstream_id: DownstreamId(1), build_resolver: false, proceed: false }]
    );
    assert_eq!(
        ep.run(Task::InitDownstream { region_id: 1, observe_id, downstream_id: DownstreamId(3) }),
        vec![halt(DownstreamId(3))]
    );
    assert_eq!(ep, before);
}

#[test]
fn rows_reach_the_subscriptions_that_watch_them() {
    let mut ep = endpoint(&CdcConfig::default_config());
    let conn = open(&mut ep, 1, Version::new(4, 0, 8), &["stream-multiplexing"]);
    ep.add_local_reader(1);
    let low = ObservedRange::new(vec![], vec![b'm']);
    let high = ObservedRange::new(vec![b'm'], vec![]);
    ep.run(Task::Register { request: request(1, 1), downstream: downstream(1, conn, 1, low) });
    ep.run(Task::Register { request: request(1, 2), downstream: downstream(2, conn, 2, high) });
    let mut waiting = downstream(3, conn, 3, ObservedRange::all());
    waiting.set_state(DownstreamState::Stopped);
    ep.run(Task::Register { request: request(1, 3), downstream: waiting });
    let observe_id = ep.capture_regions[0].observe_id;
    ep.run(Task::InitDownstream { region_id: 1, observe_id, downstream_id: DownstreamId(1) });

    let rows = vec![
        row(RowKind::Prewrite, b"a", 10, 0),
        row(RowKind::Prewrite, b"z", 11, 0),
        row(RowKind::Commit, b"a", 10, 12),
    ];
    let batch = CmdBatch {
        region_id: 1,
        observe_id,
        cmds: vec![Cmd::Admin, Cmd::Data(rows.clone()), Cmd::Data(vec![row(RowKind::Rollback, b"b", 13, 0)])],
        size: 100,
    };
    ep.sink_memory_quota.allocate(150).unwrap();
    let effects = ep.run(Task::MultiBatch { multi: vec![batch] });
    let entries = |request_id, rows| Effect::Send {
        conn_id: conn,
        event: CdcEvent::Event(Event { region_id: 1, request_id, event: EventKind::Entries(rows) }),
    };
    assert_eq!(
        effects,
        vec![
            entries(1, vec![rows[0].clone(), rows[2].clone()]),
            entries(2, vec![rows[1].clone()]),
            entries(1, vec![row(RowKind::Rollback, b"b", 13, 0)]),
        ]
    );
    assert_eq!(ep.sink_memory_quota.in_use(), 50);

    // The lock on "z" is still held: it holds the region back.
    let region = Region { id: 1, region_epoch: RegionEpoch::default() };
    let scanned = vec![KeyLock { key: b"q".to_vec(), lock: MiniLock::from_ts(TimeStamp::new(9)) }];
    ep.run(Task::FinishScanLocks { observe_id, region, locks: scanned });
    let effects = ep.run(Task::MinTs { regions: vec![1], min_ts: TimeStamp::new(20), current_ts: TimeStamp::new(21) });
    assert_eq!(effects, vec![batch_event(conn, 1, 9, vec![1])]);
    assert_eq!(ep.resolved_region_count, 1);
    assert_eq!(ep.unresolved_region_count, 2);
    assert_eq!(ep.min_resolved_ts, TimeStamp::new(9));
    assert_eq!(ep.min_ts_region_id, 1);
    assert_eq!(ep.current_ts, TimeStamp::new(21));

    let release = CmdBatch {
        region_id: 1,
        observe_id,
        cmds: vec![Cmd::Data(vec![row(RowKind::Commit, b"q", 9, 15)])],
        size: 0,
    };
    ep.run(Task::MultiBatch { multi: vec![release] });
    let effects = ep.run(Task::MinTs { regions: vec![1], min_ts: TimeStamp::new(20), current_ts: TimeStamp::new(21) });
    assert_eq!(effects, vec![batch_event(conn, 1, 11, vec![1])]);
}

#[test]
fn a_failing_region_leaves_the_others_alone() {
    let mut ep = endpoint(&CdcConfig::default_config());
    let a = open(&mut ep, 1, Version::new(4, 0, 8), &[]);
    let b = open(&mut ep, 2, Version::new(4, 0, 5), &[]);
    let one = subscribe(&mut ep, 1, a, 1, 0);
    subscribe(&mut ep, 2, b, 1, 5);
    let two = subscribe(&mut ep, 3, a, 2, 0);
    let three = subscribe(&mut ep, 4, b, 3, 6);

    let data = |region_id, observe_id, key: &[u8], ts| CmdBatch {
        region_id,
        observe_id,
        cmds: vec![Cmd::Data(vec![row(RowKind::Prewrite, key, ts, 0)])],
        size: 1,
    };
    let multi = vec![
        data(1, one, b"k", 5),
        // The store refuses a command of region 1.
        CmdBatch {
            region_id: 1,
            observe_id: one,
            cmds: vec![Cmd::Failed(RegionError::NotLeader { region_id: 1 }), Cmd::Data(vec![row(RowKind::Prewrite, b"l", 6, 0)])],
            size: 1,
        },
        // What comes for region 1 afterwards finds it gone.
        data(1, one, b"m", 7),
        data(2, two, b"k", 8),
        // A batch of an epoch that is over is dropped.
        data(3, ObserveId(three.0 + 100), b"k", 9),
        // Region 4 is not captured.
        data(4, one, b"k", 9),
    ];
    let effects = ep.run(Task::MultiBatch { multi });
    let entries = |conn_id, region_id, request_id, key: &[u8], ts| Effect::Send {
        conn_id,
        event: CdcEvent::Event(Event {
            region_id,
            request_id,
            event: EventKind::Entries(vec![row(RowKind::Prewrite, key, ts, 0)]),
        }),
    };
    assert_eq!(
        effects,
        vec![
            entries(a, 1, 0, b"k", 5),
            entries(b, 1, 5, b"k", 5),
            error_event(a, 1, 0, EventError::NotLeader { region_id: 1 }),
            error_event(b, 1, 5, EventError::NotLeader { region_id: 1 }),
            Effect::StopObserving { region_id: 1, observe_id: one },
            entries(a, 2, 0, b"k", 8),
        ]
    );
    assert_eq!(ep.capture_regions.len(), 2);
    assert_eq!(ep.connections[0].subscriptions().len(), 1);
    assert_eq!(ep.connections[1].subscriptions().len(), 1);
    assert_eq!(ep.on_validate(Validate::Region(1)), ValidateReply::Region { region_id: 1, delegate: None });

    // A split of region 2 ends its capture; a lock that cannot be is an error too.
    let changed = RegionEpoch { conf_ver: 1, version: 2 };
    let multi = vec![
        CmdBatch { region_id: 2, observe_id: two, cmds: vec![Cmd::RegionChanged { current: changed }], size: 0 },
        data(3, three, b"k", 9),
        data(3, three, b"k", 10),
    ];
    let effects = ep.run(Task::MultiBatch { multi });
    assert_eq!(
        effects,
        vec![
            error_event(a, 2, 0, EventError::EpochNotMatch { current: changed }),
            Effect::StopObserving { region_id: 2, observe_id: two },
            entries(b, 3, 6, b"k", 9),
            error_event(b, 3, 6, EventError::RegionNotFound { region_id: 3 }),
            Effect::StopObserving { region_id: 3, observe_id: three },
        ]
    );
    assert!(ep.capture_regions.is_empty());
    assert_eq!(ep.connections[0].downstreams_count(), 0);
    assert_eq!(ep.connections[1].downstreams_count(), 0);
}

#[test]
fn a_failed_delegate_skips_batches() {
    let mut delegate = Delegate::new(1, ObserveId(4));
    let conn = ConnId(1);
    let mut d = downstream(1, conn, 1, ObservedRange::all());
    d.set_state(DownstreamState::Normal);
    assert_eq!(delegate.subscribe(d), Ok(()));
    assert!(delegate.init_lock_tracker());
    assert!(!delegate.has_failed());
    let mut ep = endpoint(&CdcConfig::default_config());
    open(&mut ep, 1, Version::new(4, 0, 8), &[]);
    delegate.mark_failed();
    ep.capture_regions.push(delegate);
    let batch = CmdBatch {
        region_id: 1,
        observe_id: ObserveId(4),
        cmds: vec![Cmd::Data(vec![row(RowKind::Prewrite, b"k", 1, 0)])],
        size: 0,
    };
    let before = ep.clone();
    assert!(ep.run(Task::MultiBatch { multi: vec![batch] }).is_empty());
    assert_eq!(ep, before);
}

#[test]
fn batches_grow_fourfold() {
    let mut ep = endpoint(&CdcConfig::default_config());
    let conn = open(&mut ep, 1, Version::new(4, 0, 8), &[]);
    let mut regions = vec![];
    for region_id in 1..=50u64 {
        subscribe(&mut ep, region_id as usize, conn, region_id, 0);
        regions.push(region_id);
    }
    let effects = ep.run(Task::MinTs { regions, min_ts: TimeStamp::new(100), current_ts: TimeStamp::new(100) });
    assert_eq!(
        effects,
        vec![
            batch_event(conn, 0, 100, (1..=8).collect()),
            batch_event(conn, 0, 100, (9..=40).collect()),
            batch_event(conn, 0, 100, (41..=50).collect()),
        ]
    );
    assert_eq!(ep.resolved_region_count, 50);
    assert_eq!(ep.unresolved_region_count, 0);
    assert_eq!(ep.min_resolved_ts, TimeStamp::new(100));
    assert_eq!(ep.min_ts_region_id, 1);
}

#[test]
fn groups_follow_the_features() {
    let mut ep = endpoint(&CdcConfig::default_config());
    let multiplexing = open(&mut ep, 1, Version::new(4, 0, 8), &["stream-multiplexing"]);
    let batching = open(&mut ep, 2, Version::new(4, 0, 8), &[]);
    let legacy = open(&mut ep, 3, Version::new(4, 0, 7), &[]);
    let mut id = 0;
    for conn in [multiplexing, batching, legacy] {
        for (region_id, request_id) in [(1, 1), (2, 1), (1, 2)] {
            id += 1;
            subscribe(&mut ep, id, conn, region_id, request_id);
        }
    }
    let effects = ep.run(Task::MinTs { regions: vec![2, 1], min_ts: TimeStamp::new(30), current_ts: TimeStamp::new(31) });
    let single = |region_id, request_id| Effect::Send {
        conn_id: legacy,
        event: CdcEvent::Event(Event { region_id, request_id, event: EventKind::ResolvedTs(30) }),
    };
    assert_eq!(
        effects,
        vec![
            // One batch for each request of the connection that multiplexes.
            batch_event(multiplexing, 1, 30, vec![2, 1]),
            batch_event(multiplexing, 2, 30, vec![1]),
            // One batch, under request zero, for the connection that does not.
            batch_event(batching, 0, 30, vec![2, 1]),
            // One event for each region, for the connection that takes no batches:
            // of two requests for one region the later one is told.
            single(2, 1),
            single(1, 2),
        ]
    );
    assert_eq!(ep.min_resolved_ts, TimeStamp::new(30));
    assert_eq!(ep.min_ts_region_id, 2);

    // Regions that are not captured are passed over.
    let effects = ep.run(Task::MinTs { regions: vec![9], min_ts: TimeStamp::new(40), current_ts: TimeStamp::new(41) });
    assert!(effects.is_empty());
    assert_eq!(ep.min_resolved_ts, TimeStamp::new(0));
    assert_eq!(ep.resolved_region_count, 0);
}

#[test]
fn least_timestamp_is_taken_over_both_paths() {
    let mut ep = endpoint(&CdcConfig::default_config());
    let batching = open(&mut ep, 1, Version::new(4, 0, 8), &[]);
    let legacy = open(&mut ep, 2, Version::new(4, 0, 7), &[]);
    let one = subscribe(&mut ep, 1, batching, 1, 0);
    let two = subscribe(&mut ep, 2, legacy, 2, 0);
    let lock = |region_id, observe_id, ts| CmdBatch {
        region_id,
        observe_id,
        cmds: vec![Cmd::Data(vec![row(RowKind::Prewrite, b"k", ts, 0)])],
        size: 0,
    };
    ep.run(Task::MultiBatch { multi: vec![lock(1, one, 17), lock(2, two, 13)] });
    let effects = ep.run(Task::MinTs { regions: vec![1, 2], min_ts: TimeStamp::new(20), current_ts: TimeStamp::new(20) });
    assert_eq!(effects.len(), 2);
    assert_eq!(effects[0], batch_event(batching, 0, 17, vec![1]));
    assert_eq!(ep.min_resolved_ts, TimeStamp::new(13));
    assert_eq!(ep.min_ts_region_id, 2);

    let mut advance = Advance::new();
    advance.record(FeatureGate::empty(), legacy, RequestId(0), 2, TimeStamp::new(13));
    advance.record(FeatureGate::default_features(&Version::new(4, 0, 8)), batching, RequestId(9), 1, TimeStamp::new(17));
    assert_eq!(advance.compat.len(), 1);
    assert_eq!(advance.exclusive.len(), 1);
    assert_eq!(advance.exclusive[0].request_id, RequestId(0));
    let effects = advance.emit_resolved_ts(&ep.connections);
    assert_eq!(effects.len(), 2);
    assert_eq!((advance.min_resolved_ts, advance.min_ts_region_id), (13, 2));
    assert!(advance.compat.is_empty() && advance.exclusive.is_empty());
}

#[test]
fn deregistering_a_connection_cascades() {
    let mut ep = endpoint(&CdcConfig::default_config());
    let a = open(&mut ep, 1, Version::new(4, 0, 8), &[]);
    let b = open(&mut ep, 2, Version::new(4, 0, 8), &[]);
    let one = subscribe(&mut ep, 1, a, 1, 0);
    let two = subscribe(&mut ep, 2, a, 2, 0);
    subscribe(&mut ep, 3, b, 2, 0);
    let effects = ep.run(Task::Deregister(Deregister::Conn(a)));
    assert_eq!(effects, vec![Effect::StopObserving { region_id: 1, observe_id: one }]);
    assert_eq!(ep.connections.len(), 1);
    assert_eq!(ep.capture_regions.len(), 1);
    assert_eq!(ep.capture_regions[0].observe_id, two);
    assert_eq!(ep.capture_regions[0].downstreams().len(), 1);
    // Deregistering it again, or something of it, is nothing.
    let before = ep.clone();
    assert!(ep.run(Task::Deregister(Deregister::Conn(a))).is_empty());
    assert!(ep.run(Task::Deregister(Deregister::Request { conn_id: a, request_id: RequestId(0) })).is_empty());
    assert!(ep.run(Task::Deregister(Deregister::Region { conn_id: a, request_id: RequestId(0), region_id: 2 })).is_empty());
    assert!(ep.run(Task::Deregister(Deregister::Region { conn_id: b, request_id: RequestId(1), region_id: 2 })).is_empty());
    assert!(ep.run(Task::SetConnVersion { conn_id: a, version: Version::new(1, 0, 0), explicit_features: vec![] }).is_empty());
    assert_eq!(ep, before);
    // A region that is captured anew gets a new epoch.
    let again = subscribe(&mut ep, 4, b, 1, 0);
    assert!(again != one && again != two);
}

#[test]
fn a_second_registration_changes_nothing() {
    let mut ep = endpoint(&CdcConfig::default_config());
    let conn = open(&mut ep, 1, Version::new(4, 0, 8), &[]);
    subscribe(&mut ep, 1, conn, 1, 1);
    let before = ep.clone();
    let effects = ep.run(Task::Register {
        request: request(1, 1),
        downstream: downstream(2, conn, 1, ObservedRange::all()),
    });
    assert_eq!(effects, vec![error_event(conn, 1, 1, EventError::DuplicateRequest { region_id: 1 })]);
    assert_eq!(ep, before);
}

#[test]
fn admission_control_refuses_without_a_trace() {
    let cfg = CdcConfig { incremental_scan_concurrency_limit: 1, ..CdcConfig::default_config() };
    let mut ep = endpoint(&cfg);
    let conn = open(&mut ep, 1, Version::new(4, 0, 8), &[]);
    ep.add_local_reader(1);
    ep.add_local_reader(2);
    let effects = ep.run(Task::Register {
        request: request(1, 1),
        downstream: downstream(1, conn, 1, ObservedRange::all()),
    });
    assert_eq!(effects.len(), 2);
    assert_eq!(ep.scan_task_count, 1);
    let before = ep.clone();
    let effects = ep.run(Task::Register {
        request: request(2, 1),
        downstream: downstream(2, conn, 1, ObservedRange::all()),
    });
    assert_eq!(
        effects,
        vec![error_event(conn, 2, 1, EventError::ServerIsBusy { reason: BusyReason::TooManyPendingScans })]
    );
    assert_eq!(ep, before);
    assert_eq!(ep.capture_regions.len(), 1);
    assert_eq!(ep.connections[0].downstreams_count(), 1);
}

#[test]
fn changing_the_settings_twice_is_changing_them_once() {
    let mut ep = endpoint(&CdcConfig::default_config());
    let change = ConfigChange {
        min_ts_interval: Some(0),
        incremental_scan_threads: Some(0),
        incremental_scan_concurrency: Some(3),
        sink_memory_quota: Some(77),
        incremental_scan_speed_limit: Some(0),
        ..ConfigChange::none()
    };
    let effects = ep.run(Task::ChangeConfig(change));
    assert_eq!(effects, vec![Effect::SetScanConcurrency(4), Effect::SetScanSpeedLimit(0)]);
    assert_eq!(ep.config.min_ts_interval, 1000);
    assert_eq!(ep.config.incremental_scan_threads, 4);
    assert_eq!(ep.config.incremental_scan_concurrency, 4);
    assert_eq!(ep.scan_concurrency, 4);
    assert_eq!(ep.sink_memory_quota.capacity(), 77);
    let once = ep.clone();
    assert!(ep.run(Task::ChangeConfig(change)).is_empty());
    assert_eq!(ep, once);

    // The second generation of the store does without the leadership check.
    let (mut v2, _) = Endpoint::new(
        7,
        &CdcConfig::default_config(),
        1000,
        true,
        ApiVersion::V2,
        MemoryQuota::new(1),
        false,
    );
    v2.run(Task::ChangeConfig(ConfigChange { tso_worker_threads: Some(2), ..ConfigChange::none() }));
    assert!(!v2.config.hibernate_regions_compatible);
    assert_eq!(v2.config.tso_worker_threads, 2);
    let mut cfg = CdcConfig::default_config();
    cfg.update(ConfigChange { incremental_scan_concurrency_limit: Some(5), ..ConfigChange::none() });
    assert_eq!(cfg.incremental_scan_concurrency_limit, 5);
    cfg.incremental_scan_concurrency = 1;
    cfg.validate(false);
    assert_eq!(cfg.incremental_scan_concurrency, 4);
}

#[test]
fn next_cycle_waits_for_the_rest_of_the_interval() {
    let cfg = CdcConfig { min_ts_interval: 1000, hibernate_regions_compatible: false, ..CdcConfig::default_config() };
    let mut ep = endpoint(&cfg);
    let conn = open(&mut ep, 1, Version::new(4, 0, 8), &[]);
    subscribe(&mut ep, 1, conn, 5, 0);
    subscribe(&mut ep, 2, conn, 3, 0);
    for (elapsed_ms, wait_ms) in [(0, 1000), (400, 600), (1000, 0), (1001, 0), (u64::MAX, 0)] {
        let effects = ep.run(Task::RegisterMinTsEvent { elapsed_ms });
        match &effects[..] {
            [Effect::ArmMinTs(round)] => {
                assert_eq!(round.wait_ms, wait_ms);
                assert_eq!(round.regions, vec![5, 3]);
                assert!(!round.hibernate_regions_compatible);
                assert_eq!(round.advance_ts_interval, 1000);
                assert!(!round.causal_ts);
            }
            other => panic!("{:?}", other),
        }
    }
}

#[test]
fn a_cycle_step_by_step() {
    let round = cdc::effect::MinTsRound {
        wait_ms: 250,
        regions: vec![1, 2],
        hibernate_regions_compatible: true,
        advance_ts_interval: 20,
        causal_ts: false,
    };
    let (mut cycle, action) = Cycle::start(&round);
    assert_eq!(action, CycleAction::Wait { ms: 250 });
    // What does not belong to the phase is ignored.
    assert_eq!(cycle.step(CycleEvent::Resolved { any_region: true }), CycleAction::Ignore);
    assert_eq!(cycle.step(CycleEvent::Scheduled(ScheduleResult::Full)), CycleAction::Ignore);
    assert_eq!(cycle.phase, Phase::Waiting);
    assert_eq!(cycle.step(CycleEvent::TimerFired), CycleAction::FetchTimestamp { causal: false });
    let action = cycle.step(CycleEvent::Timestamp {
        tso: Some(TimeStamp::new(100)),
        min_mem_lock_ts: Some(TimeStamp::new(90)),
        cluster_version: Version::new(5, 0, 0),
    });
    assert_eq!(
        action,
        CycleAction::Resolve { method: ResolveMethod::Store, min_ts: TimeStamp::new(90), advance_ts_interval: 20 }
    );
    assert_eq!(
        cycle.step(CycleEvent::Resolved { any_region: true }),
        CycleAction::ScheduleMinTs { min_ts: TimeStamp::new(90), current_ts: TimeStamp::new(100) }
    );
    assert_eq!(cycle.step(CycleEvent::Scheduled(ScheduleResult::Stopped)), CycleAction::Rearm);
    assert_eq!(cycle.step(CycleEvent::Scheduled(ScheduleResult::Scheduled)), CycleAction::Done);
    assert_eq!(cycle.phase, Phase::Finished);
    assert_eq!(cycle.step(CycleEvent::TimerFired), CycleAction::Ignore);

    // Without a region the next cycle is asked for at once.
    let (mut cycle, _) = Cycle::start(&round);
    cycle.step(CycleEvent::TimerFired);
    cycle.step(CycleEvent::Timestamp { tso: None, min_mem_lock_ts: None, cluster_version: Version::new(4, 0, 0) });
    assert_eq!(cycle.min_ts, TimeStamp::zero());
    assert_eq!(cycle.step(CycleEvent::Resolved { any_region: false }), CycleAction::Rearm);
    // A scheduler that runs and refuses is fatal.
    assert_eq!(cycle.step(CycleEvent::Scheduled(ScheduleResult::Full)), CycleAction::Abort);
    assert_eq!(cycle.phase, Phase::Failed);

    let (mut cycle, _) = Cycle::start(&round);
    cycle.step(CycleEvent::TimerFired);
    cycle.step(CycleEvent::Timestamp { tso: Some(TimeStamp::new(5)), min_mem_lock_ts: None, cluster_version: Version::new(4, 0, 0) });
    cycle.step(CycleEvent::Resolved { any_region: true });
    assert_eq!(cycle.step(CycleEvent::Scheduled(ScheduleResult::Full)), CycleAction::Abort);
}

#[test]
fn resolve_method_and_candidate() {
    assert_eq!(resolve_method(true, &Version::new(5, 0, 0)), ResolveMethod::Store);
    assert_eq!(resolve_method(true, &Version::new(4, 9, 9)), ResolveMethod::Raft);
    assert_eq!(resolve_method(false, &Version::new(6, 0, 0)), ResolveMethod::Raft);
    let pre = Version { major: 5, minor: 0, patch: 0, pre_release: true };
    assert_eq!(resolve_method(true, &pre), ResolveMethod::Raft);
    assert_eq!(candidate(Some(TimeStamp::new(10)), Some(TimeStamp::new(11))), TimeStamp::new(10));
    assert_eq!(candidate(Some(TimeStamp::new(10)), Some(TimeStamp::new(9))), TimeStamp::new(9));
    assert_eq!(candidate(Some(TimeStamp::new(10)), None), TimeStamp::new(10));
    assert_eq!(candidate(None, Some(TimeStamp::new(9))), TimeStamp::zero());
}

#[test]
fn reports_and_answers() {
    let mut ep = endpoint(&CdcConfig::default_config());
    assert_eq!(ep.get_interval(), 1000);
    let first = ep.on_timeout();
    assert_eq!(
        first,
        Metrics {
            captured_region_count: 0,
            resolved_region_count: 0,
            unresolved_region_count: 0,
            min_resolved: None,
            sink_bytes: 0,
        }
    );
    let conn = open(&mut ep, 1, Version::new(4, 0, 8), &[]);
    let observe_id = subscribe(&mut ep, 1, conn, 1, 0);
    ep.add_local_reader(2);
    ep.run(Task::Register { request: request(2, 0), downstream: downstream(2, conn, 0, ObservedRange::all()) });
    ep.sink_memory_quota.allocate(12).unwrap();
    ep.run(Task::MinTs {
        regions: vec![1, 2],
        min_ts: TimeStamp::compose(1000, 5),
        current_ts: TimeStamp::compose(1500, 0),
    });
    let report = ep.on_timeout();
    assert_eq!(
        report,
        Metrics {
            captured_region_count: 2,
            resolved_region_count: 1,
            unresolved_region_count: 0,
            min_resolved: Some(MinResolved { region_id: 1, resolved_physical: 1000, lag_ms: 500 }),
            sink_bytes: 12,
        }
    );
    assert_eq!(ep.on_timeout().min_resolved, None);
    assert_eq!(ep.min_resolved_ts, TimeStamp::max());
    assert_eq!(ep.current_ts, TimeStamp::max());

    assert_eq!(
        ep.run(Task::Validate(Validate::Region(1))),
        vec![Effect::Validated(ValidateReply::Region {
            region_id: 1,
            delegate: Some(DelegateSummary { observe_id, downstreams: 1, failed: false }),
        })]
    );
    assert_eq!(
        ep.run(Task::Validate(Validate::OldValueCache)),
        vec![Effect::Validated(ValidateReply::OldValueCache { capacity: 512 * 1024 * 1024 })]
    );
    assert_eq!(
        ep.run(Task::Validate(Validate::UnresolvedRegion)),
        vec![Effect::Validated(ValidateReply::UnresolvedRegion(0))]
    );
    ep.set_max_scan_batch_size(7);
    assert_eq!(ep.max_scan_batch_size, 7);
}

#[test]
fn opening_a_connection_again_replaces_it() {
    let mut ep = endpoint(&CdcConfig::default_config());
    let conn = open(&mut ep, 1, Version::new(5, 3, 0), &[]);
    open(&mut ep, 2, Version::new(4, 0, 8), &[]);
    ep.run(Task::OpenConn { conn: Conn::new(conn) });
    assert_eq!(ep.connections.len(), 2);
    assert_eq!(ep.connections[0].get_id(), conn);
    assert_eq!(ep.connections[0].features(), FeatureGate::empty());
}

/// Whether the connections' tables and the regions' say the same.
fn tables_agree(ep: &Endpoint) -> bool {
    let mut by_conn = vec![];
    for conn in &ep.connections {
        for s in conn.subscriptions() {
            by_conn.push((conn.get_id(), s.request_id, s.region_id, s.downstream_id));
        }
    }
    let mut by_region = vec![];
    for delegate in &ep.capture_regions {
        if delegate.downstreams().is_empty() {
            return false;
        }
        for d in delegate.downstreams() {
            by_region.push((d.conn_id, d.req_id, delegate.region_id, d.id));
        }
    }
    by_conn.sort_by_key(|l| (l.0 .0, l.1 .0, l.2, l.3 .0));
    by_region.sort_by_key(|l| (l.0 .0, l.1 .0, l.2, l.3 .0));
    by_conn == by_region
}

#[test]
fn the_two_tables_stay_in_agreement() {
    let mut ep = endpoint(&CdcConfig::default_config());
    let a = open(&mut ep, 1, Version::new(4, 0, 8), &["stream-multiplexing"]);
    let b = open(&mut ep, 2, Version::new(4, 0, 5), &[]);
    let mut id = 0;
    let mut epochs = vec![];
    for conn in [a, b] {
        for region_id in 1..=4u64 {
            for request_id in [0, 1, 2] {
                id += 1;
                epochs.push(subscribe(&mut ep, id, conn, region_id, request_id));
                assert!(tables_agree(&ep));
            }
        }
    }
    assert_eq!(ep.capture_regions.len(), 4);
    assert_eq!(ep.connections[0].downstreams_count(), 12);
    let steps = vec![
        Task::Deregister(Deregister::Region { conn_id: a, request_id: RequestId(1), region_id: 2 }),
        Task::Deregister(Deregister::Request { conn_id: b, request_id: RequestId(0) }),
        Task::Deregister(Deregister::Downstream {
            conn_id: a,
            request_id: RequestId(0),
            region_id: 1,
            downstream_id: DownstreamId(1),
            err: Some(Error::Rocks),
        }),
        // A stale one.
        Task::Deregister(Deregister::Downstream {
            conn_id: a,
            request_id: RequestId(0),
            region_id: 1,
            downstream_id: DownstreamId(1),
            err: Some(Error::Rocks),
        }),
        Task::MultiBatch {
            multi: vec![CmdBatch {
                region_id: 3,
                observe_id: epochs[6],
                cmds: vec![Cmd::Failed(RegionError::StaleCommand)],
                size: 0,
            }],
        },
        Task::Deregister(Deregister::Delegate { region_id: 4, observe_id: epochs[9], err: Error::Other }),
        Task::MinTs { regions: vec![1, 2, 3, 4], min_ts: TimeStamp::new(5), current_ts: TimeStamp::new(5) },
        Task::Deregister(Deregister::Request { conn_id: a, request_id: RequestId(2) }),
        Task::Deregister(Deregister::Conn(b)),
        Task::Deregister(Deregister::Conn(a)),
    ];
    let sizes = [(4, 11, 12), (4, 11, 8), (4, 10, 8), (4, 10, 8), (3, 7, 6), (2, 4, 4), (2, 4, 4), (2, 2, 4), (2, 2, 0), (0, 0, 0)];
    for (task, (regions, of_a, of_b)) in steps.into_iter().zip(sizes) {
        ep.run(task);
        assert!(tables_agree(&ep));
        let count = |conn_id| match cdc::conn::find_conn(&ep.connections, conn_id) {
            Some(c) => ep.connections[c].downstreams_count(),
            None => 0,
        };
        assert_eq!((ep.capture_regions.len(), count(a), count(b)), (regions, of_a, of_b));
    }
}

#[test]
fn ids_in_use_are_not_admitted() {
    let mut ep = endpoint(&CdcConfig::default_config());
    let conn = open(&mut ep, 1, Version::new(4, 0, 8), &[]);
    subscribe(&mut ep, 1, conn, 1, 3);
    let register = |id, region_id, request_id, req_id| Task::Register {
        request: request(region_id, request_id),
        downstream: downstream(id, conn, req_id, ObservedRange::all()),
    };
    assert!(ep.admits(&register(2, 1, 4, 4)));
    // The id is in use in the region, though not in another.
    assert!(!ep.admits(&register(1, 1, 4, 4)));
    assert!(ep.admits(&register(1, 2, 4, 4)));
    // The subscription is of another request than the registration.
    assert!(!ep.admits(&register(2, 1, 4, 5)));
    assert!(!ep.admits(&Task::OpenConn { conn: Conn::new(conn) }));
    assert!(ep.admits(&Task::OpenConn { conn: Conn::new(ConnId(2)) }));
    let mut busy = Conn::new(ConnId(2));
    busy.subscribe(RequestId(0), 1, DownstreamId(7));
    assert!(!ep.admits(&Task::OpenConn { conn: busy }));
    assert!(ep.admits(&Task::Deregister(Deregister::Conn(ConnId(9)))));
    assert!(ep.admits(&Task::TxnExtra { size: 1 }));
}

#[test]
fn a_region_never_moves_back() {
    let mut ep = endpoint(&CdcConfig::default_config());
    let conn = open(&mut ep, 1, Version::new(4, 0, 8), &[]);
    let one = subscribe(&mut ep, 1, conn, 1, 0);
    subscribe(&mut ep, 2, conn, 2, 0);
    let cycle = |ep: &mut Endpoint, min_ts| {
        ep.run(Task::MinTs { regions: vec![1, 2], min_ts: TimeStamp::new(min_ts), current_ts: TimeStamp::new(min_ts) })
    };
    assert_eq!(cycle(&mut ep, 10), vec![batch_event(conn, 0, 10, vec![1, 2])]);
    assert_eq!(ep.capture_regions[0].resolved_ts, TimeStamp::new(10));
    // A timestamp that is behind moves nothing, and nothing is sent.
    assert!(cycle(&mut ep, 9).is_empty());
    assert_eq!(ep.resolved_region_count, 2);
    assert_eq!(ep.capture_regions[0].resolved_ts, TimeStamp::new(10));
    // Nor does a lock that starts behind: the region waits until it is gone.
    let lock = |kind| CmdBatch {
        region_id: 1,
        observe_id: one,
        cmds: vec![Cmd::Data(vec![row(kind, b"k", 7, 0)])],
        size: 0,
    };
    ep.run(Task::MultiBatch { multi: vec![lock(RowKind::Prewrite)] });
    assert_eq!(cycle(&mut ep, 12), vec![batch_event(conn, 0, 12, vec![2])]);
    assert_eq!(ep.capture_regions[0].resolved_ts, TimeStamp::new(10));
    assert_eq!(ep.capture_regions[1].resolved_ts, TimeStamp::new(12));
    ep.run(Task::MultiBatch { multi: vec![lock(RowKind::Rollback)] });
    assert_eq!(cycle(&mut ep, 12), vec![batch_event(conn, 0, 12, vec![1, 2])]);
    assert_eq!(ep.capture_regions[0].resolved_ts, TimeStamp::new(12));
}

#[test]
fn a_scan_reports_and_gives_up() {
    let mut ep = endpoint(&CdcConfig::default_config());
    let conn = open(&mut ep, 1, Version::new(4, 0, 8), &[]);
    ep.add_local_reader(1);
    ep.set_max_scan_batch_size(3);
    let effects = ep.run(Task::Register {
        request: request(1, 4),
        downstream: downstream(1, conn, 4, ObservedRange::all()),
    });
    let task = match effects.last() {
        Some(Effect::SpawnScan(task)) => task.clone(),
        other => panic!("{:?}", other),
    };
    let mut scan = Initializer::new(task.clone());
    assert!(!scan.build_resolver);
    assert_eq!(
        scan.init_downstream(),
        Task::InitDownstream { region_id: 1, observe_id: task.observe_id, downstream_id: DownstreamId(1) }
    );
    assert!(!scan.batch_full(2, 1024 * 1024 - 1));
    assert!(scan.batch_full(3, 0));
    assert!(scan.batch_full(0, 1024 * 1024));

    let region = Region { id: 1, region_epoch: RegionEpoch::default() };
    assert_eq!(scan.finish_scan_locks(region, vec![]), None);
    let downstream_only = Deregister::Downstream {
        conn_id: conn,
        request_id: RequestId(4),
        region_id: 1,
        downstream_id: DownstreamId(1),
        err: Some(Error::Rocks),
    };
    assert_eq!(scan.deregister_downstream(Error::Rocks), downstream_only);
    let refused = Error::Request(RegionError::NotLeader { region_id: 1 });
    assert_eq!(
        scan.deregister_downstream(refused),
        Deregister::Delegate { region_id: 1, observe_id: task.observe_id, err: refused }
    );

    // The engine's answer makes it the scan that reads the locks.
    let effects = ep.run(scan.init_downstream());
    let go = match effects.last() {
        Some(Effect::ScanInit { build_resolver, proceed, .. }) => scan.on_scan_init(*build_resolver, *proceed),
        other => panic!("{:?}", other),
    };
    assert!(go);
    assert!(scan.build_resolver);
    assert_eq!(
        scan.deregister_downstream(Error::Rocks),
        Deregister::Delegate { region_id: 1, observe_id: task.observe_id, err: Error::Rocks }
    );
    let locks = vec![KeyLock { key: vec![1], lock: MiniLock::from_ts(TimeStamp::new(3)) }];
    let delivery = scan.finish_scan_locks(region, locks.clone());
    assert_eq!(delivery, Some(Task::FinishScanLocks { observe_id: task.observe_id, region, locks }));
    assert!(ep.run(delivery.unwrap()).is_empty());
    assert_eq!(ep.capture_regions[0].lock_tracker.min_ts(), Some(3));
}

#[test]
fn names_of_messages() {
    assert_eq!(Task::TxnExtra { size: 0 }.kind(), Some("txn_extra"));
    assert_eq!(Task::ChangeConfig(ConfigChange::none()).kind(), Some("change_config"));
    assert_eq!(Task::OpenConn { conn: Conn::new(ConnId(0)) }.kind(), Some("open_conn"));
    assert_eq!(Task::MultiBatch { multi: vec![] }.kind(), Some("multi_batch"));
    assert_eq!(
        Task::MinTs { regions: vec![], min_ts: TimeStamp::zero(), current_ts: TimeStamp::zero() }.kind(),
        Some("mit_ts")
    );
    assert_eq!(
        Task::Register {
            request: request(1, 1),
            downstream: downstream(1, ConnId(1), 1, ObservedRange::all()),
        }
        .kind(),
        Some("register")
    );
    assert_eq!(
        Task::SetConnVersion { conn_id: ConnId(1), version: Version::new(1, 0, 0), explicit_features: vec![] }.kind(),
        Some("set_conn_version")
    );
    assert_eq!(
        Task::FinishScanLocks { observe_id: ObserveId(1), region: Region::default(), locks: vec![] }.kind(),
        Some("finish_scan_locks")
    );
    assert_eq!(
        Task::InitDownstream { region_id: 1, observe_id: ObserveId(1), downstream_id: DownstreamId(1) }.kind(),
        Some("init_downstream")
    );
    // These two go into logs without a tag.
    assert_eq!(Task::RegisterMinTsEvent { elapsed_ms: 0 }.kind(), None);
    assert_eq!(Task::Validate(Validate::OldValueCache).kind(), None);
    assert_eq!(Task::Validate(Validate::Region(1)).kind(), None);
    let deregister = Deregister::Conn(ConnId(1));
    assert_eq!(deregister.kind(), "conn");
    assert_eq!(Task::Deregister(deregister).kind(), Some("deregister"));
    assert_eq!(Deregister::Request { conn_id: ConnId(1), request_id: RequestId(1) }.kind(), "request");
    assert_eq!(Deregister::Region { conn_id: ConnId(1), request_id: RequestId(1), region_id: 1 }.kind(), "region");
    assert_eq!(
        Deregister::Downstream {
            conn_id: ConnId(1),
            request_id: RequestId(1),
            region_id: 1,
            downstream_id: DownstreamId(1),
            err: None,
        }
        .kind(),
        "downstream"
    );
    assert_eq!(
        Deregister::Delegate { region_id: 1, observe_id: ObserveId(1), err: Error::Other }.kind(),
        "delegate"
    );
}
