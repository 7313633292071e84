use cdc::config::{CdcConfig, ConfigChange};
use cdc::conn::Conn;
use cdc::downstream::{ApiVersion, Downstream, DownstreamState, KvApi};
use cdc::effect::Effect;
use cdc::endpoint::Endpoint;
use cdc::error::{BusyReason, Error, EventError, RegionEpoch, RegionError, SendError};
use cdc::event::{CdcEvent, Event, EventKind, ResolvedTs};
use cdc::feature::FeatureGate;
use cdc::heap::ResolvedRegionHeap;
use cdc::ids::{ConnId, DownstreamId, ObserveId, RequestId};
use cdc::initializer::Initializer;
use cdc::keys::ObservedRange;
use cdc::lock::{KeyLock, MiniLock};
use cdc::min_ts::{Cycle, CycleAction, CycleEvent};
use cdc::quota::MemoryQuota;
use cdc::task::{ChangeDataRequest, Deregister, Region, Task};
use cdc::timestamp::TimeStamp;
use cdc::version::Version;

const DEFAULT_CLUSTER_ID: u64 = 0;

const MB: u64 = 1024 * 1024;

fn mock_endpoint(cfg: &CdcConfig, api_version: ApiVersion) -> Endpoint {
    mock_endpoint_with_ts_provider(cfg, api_version, false)
}

fn mock_endpoint_with_ts_provider(cfg: &CdcConfig, api_version: ApiVersion, causal_ts: bool) -> Endpoint {
    let memory_quota = MemoryQuota::new(usize::MAX);
    let (ep, effects) = Endpoint::new(
        DEFAULT_CLUSTER_ID,
        cfg,
        1000,
        false,
        api_version,
        memory_quota,
        causal_ts,
    );
    assert_eq!(effects.len(), 1);
    assert!(matches!(effects[0], Effect::ArmMinTs(_)));
    ep
}

fn set_conn_version_task(conn_id: ConnId, version: Version) -> Task {
    Task::SetConnVersion { conn_id, version, explicit_features: vec![] }
}

fn new_downstream(id: usize, region_epoch: RegionEpoch, req_id: RequestId, conn_id: ConnId, kv_api: KvApi) -> Downstream {
    Downstream::new(
        DownstreamId(id),
        region_epoch,
        req_id,
        conn_id,
        kv_api,
        false,
        ObservedRange::default(),
    )
}

/// The events that the effects send to the connection.
fn sent_to(effects: &[Effect], conn: ConnId) -> Vec<CdcEvent> {
    let mut events = vec![];
    for effect in effects {
        if let Effect::Send { conn_id, event } = effect {
            if *conn_id == conn {
                events.push(event.clone());
            }
        }
    }
    events
}

/// The effects other than messages to connections.
fn not_sent(effects: &[Effect]) -> Vec<Effect> {
    let mut others = vec![];
    for effect in effects {
        if !matches!(effect, Effect::Send { .. }) {
            others.push(effect.clone());
        }
    }
    others
}

fn observe_id_of(ep: &Endpoint, region_id: u64) -> ObserveId {
    let i = cdc::endpoint::find_region(&ep.capture_regions, region_id).unwrap();
    ep.capture_regions[i].observe_id
}

fn delegate_index(ep: &Endpoint, region_id: u64) -> usize {
    cdc::endpoint::find_region(&ep.capture_regions, region_id).unwrap()
}

fn conn_of(ep: &Endpoint, conn_id: ConnId) -> &Conn {
    let i = cdc::conn::find_conn(&ep.connections, conn_id).unwrap();
    &ep.connections[i]
}

fn error_of(event: &CdcEvent) -> (u64, u64, EventError) {
    match event {
        CdcEvent::Event(Event { region_id, request_id, event: EventKind::Error(err) }) => {
            (*region_id, *request_id, *err)
        }
        other => panic!("unknown cdc event {:?}", other),
    }
}

#[test]
fn test_api_version_check() {
    let mut cfg = CdcConfig::default_config();
    // To make the case more stable.
    cfg.min_ts_interval = 1000;

    let mut suite = mock_endpoint(&cfg, ApiVersion::V1);
    suite.add_local_reader(1);

    let conn_id = ConnId(1);
    let conn = Conn::new(conn_id);
    suite.run(Task::OpenConn { conn });
    suite.run(set_conn_version_task(conn_id, FeatureGate::batch_resolved_ts()));

    let mut req = ChangeDataRequest::default();
    req.cluster_id = 0;
    req.region_id = 1;
    req.kv_api = KvApi::TiDb;
    let region_epoch = req.region_epoch;

    // Compatibility error.
    let downstream = new_downstream(1, region_epoch, RequestId(1), conn_id, KvApi::RawKv);
    req.kv_api = KvApi::RawKv;
    let effects = suite.run(Task::Register { request: req, downstream });
    let events = sent_to(&effects, conn_id);
    assert_eq!(events.len(), 1);
    let (region_id, _, err) = error_of(&events[0]);
    assert_eq!(region_id, 1);
    assert!(matches!(err, EventError::Compatibility { .. }));
    assert!(not_sent(&effects).is_empty());

    // Compatibility error.
    let downstream = new_downstream(2, region_epoch, RequestId(2), conn_id, KvApi::TxnKv);
    req.kv_api = KvApi::TxnKv;
    let effects = suite.run(Task::Register { request: req, downstream });
    let events = sent_to(&effects, conn_id);
    assert_eq!(events.len(), 1);
    let (region_id, _, err) = error_of(&events[0]);
    assert_eq!(region_id, 1);
    assert!(matches!(err, EventError::Compatibility { .. }));
    assert!(not_sent(&effects).is_empty());

    suite.api_version = ApiVersion::V2;
    // Compatibility error.
    let downstream = new_downstream(3, region_epoch, RequestId(3), conn_id, KvApi::TxnKv);
    req.kv_api = KvApi::TxnKv;
    let effects = suite.run(Task::Register { request: req, downstream });
    let events = sent_to(&effects, conn_id);
    assert_eq!(events.len(), 1);
    let (region_id, _, err) = error_of(&events[0]);
    assert_eq!(region_id, 1);
    assert_eq!(err, EventError::Compatibility { required_version: Version::new(6, 2, 0) });
    assert!(not_sent(&effects).is_empty());
}

#[test]
fn test_change_endpoint_cfg() {
    let cfg = CdcConfig::default_config();
    let mut ep = mock_endpoint(&cfg, ApiVersion::V2);

    // Modify min_ts_interval and hibernate_regions_compatible.
    {
        let mut updated_cfg = cfg;
        {
            // Update it to 0, this will be an invalid change and will be lost.
            updated_cfg.min_ts_interval = 0;
        }
        let diff = cfg.diff(&updated_cfg);
        ep.run(Task::ChangeConfig(diff));
        assert_eq!(ep.config.min_ts_interval, 1000);
        assert_eq!(ep.config.hibernate_regions_compatible, true);

        {
            // update fields.
            updated_cfg.min_ts_interval = 100 * 1000;
            updated_cfg.hibernate_regions_compatible = false
        }
        let diff = cfg.diff(&updated_cfg);
        ep.run(Task::ChangeConfig(diff));
        assert_eq!(ep.config.min_ts_interval, 100 * 1000);
        assert_eq!(ep.config.hibernate_regions_compatible, false);
    }

    // Modify old_value_cache_memory_quota.
    {
        let mut updated_cfg = cfg;
        {
            updated_cfg.old_value_cache_memory_quota = 1024 * MB;
        }
        let diff = cfg.diff(&updated_cfg);

        assert_eq!(ep.config.old_value_cache_memory_quota, 512 * MB);
        assert_eq!(ep.old_value_cache_capacity, 512 * MB);
        let effects = ep.run(Task::ChangeConfig(diff));
        assert_eq!(ep.config.old_value_cache_memory_quota, 1024 * MB);
        assert_eq!(ep.old_value_cache_capacity, 1024 * MB);
        assert_eq!(effects, vec![Effect::ResizeOldValueCache(1024 * MB)]);
    }

    // Modify incremental_scan_concurrency.
    {
        let mut updated_cfg = cfg;
        {
            // Update it to be smaller than incremental_scan_threads,
            // which will be an invalid change and will modified to
            // incremental_scan_threads.
            updated_cfg.incremental_scan_concurrency = 2;
        }
        let diff = cfg.diff(&updated_cfg);
        let effects = ep.run(Task::ChangeConfig(diff));
        assert_eq!(ep.config.incremental_scan_concurrency, 4);
        assert_eq!(ep.scan_concurrency, 4);
        assert_eq!(effects, vec![Effect::SetScanConcurrency(4)]);

        {
            // Correct update.
            updated_cfg.incremental_scan_concurrency = 8;
        }
        let diff = cfg.diff(&updated_cfg);
        let effects = ep.run(Task::ChangeConfig(diff));
        assert_eq!(ep.config.incremental_scan_concurrency, 8);
        assert_eq!(ep.scan_concurrency, 8);
        assert_eq!(effects, vec![Effect::SetScanConcurrency(8)]);
    }

    // Modify sink_memory_quota.
    {
        let mut updated_cfg = cfg;
        {
            updated_cfg.sink_memory_quota = 1024 * MB;
        }
        let diff = cfg.diff(&updated_cfg);

        assert_eq!(ep.sink_memory_quota.capacity(), isize::MAX as usize);
        ep.run(Task::ChangeConfig(diff));
        assert_eq!(ep.config.sink_memory_quota, 1024 * MB);
        assert_eq!(ep.sink_memory_quota.capacity(), (1024 * MB) as usize);
    }

    // Modify incremental_scan_speed_limit.
    {
        let mut updated_cfg = cfg;
        {
            updated_cfg.incremental_scan_speed_limit = 1024 * MB;
        }
        let diff = cfg.diff(&updated_cfg);

        assert_eq!(ep.config.incremental_scan_speed_limit, 128 * MB);
        assert_eq!(ep.scan_speed_limit, 128 * MB);
        let effects = ep.run(Task::ChangeConfig(diff));
        assert_eq!(ep.config.incremental_scan_speed_limit, 1024 * MB);
        assert_eq!(ep.scan_speed_limit, 1024 * MB);
        assert_eq!(effects, vec![Effect::SetScanSpeedLimit(1024 * MB)]);
    }

    // Modify incremental_fetch_speed_limit.
    {
        let mut updated_cfg = cfg;
        {
            updated_cfg.incremental_fetch_speed_limit = 2048 * MB;
        }
        let diff = cfg.diff(&updated_cfg);

        assert_eq!(ep.config.incremental_fetch_speed_limit, 512 * MB);
        assert_eq!(ep.fetch_speed_limit, 512 * MB);
        let effects = ep.run(Task::ChangeConfig(diff));
        assert_eq!(ep.config.incremental_fetch_speed_limit, 2048 * MB);
        assert_eq!(ep.fetch_speed_limit, 2048 * MB);
        assert_eq!(effects, vec![Effect::SetFetchSpeedLimit(2048 * MB)]);
    }
}

#[test]
fn test_raftstore_is_busy() {
    let mut suite = mock_endpoint(&CdcConfig::default_config(), ApiVersion::V1);

    suite.add_local_reader(1);

    let conn_id = ConnId(1);
    let conn = Conn::new(conn_id);
    suite.run(Task::OpenConn { conn });
    suite.run(set_conn_version_task(conn_id, Version::new(0, 0, 0)));

    let mut req = ChangeDataRequest::default();
    req.cluster_id = 0;
    req.region_id = 1;
    let region_epoch = req.region_epoch;
    let downstream = new_downstream(1, region_epoch, RequestId(0), conn_id, KvApi::TiDb);
    let effects = suite.run(Task::Register { request: req, downstream });
    assert_eq!(suite.capture_regions.len(), 1);
    let scan = match effects.last() {
        Some(Effect::SpawnScan(task)) => Initializer::new(task.clone()),
        other => panic!("unexpected task {:?}", other),
    };

    // The scan cannot reach the region because its channel is full.
    for _ in 0..5 {
        if let Deregister::Downstream { err: Some(Error::Request(err)), .. } =
            scan.deregister_downstream(Error::Sink(SendError::Full))
        {
            assert!(!matches!(err, RegionError::ServerIsBusy));
        }
    }
    let effects = suite.run(Task::Deregister(scan.deregister_downstream(Error::Sink(SendError::Full))));
    for event in sent_to(&effects, conn_id) {
        let (_, _, err) = error_of(&event);
        assert!(!matches!(err, EventError::ServerIsBusy { .. }));
    }
}

#[test]
fn test_register() {
    let cfg = CdcConfig { min_ts_interval: 60 * 1000, ..CdcConfig::default_config() };
    let mut suite = mock_endpoint(&cfg, ApiVersion::V1);
    suite.add_local_reader(1);

    let conn_id = ConnId(1);
    let conn = Conn::new(conn_id);
    suite.run(Task::OpenConn { conn });

    // Enable batch resolved ts in the test.
    let version = FeatureGate::batch_resolved_ts();
    suite.run(set_conn_version_task(conn_id, version));

    let mut req = ChangeDataRequest::default();
    req.cluster_id = 0;
    req.region_id = 1;
    req.request_id = 1;
    let region_epoch = req.region_epoch;
    let downstream = new_downstream(1, region_epoch, RequestId(1), conn_id, KvApi::TiDb);
    let effects = suite.run(Task::Register { request: req, downstream });
    assert_eq!(suite.capture_regions.len(), 1);
    assert!(sent_to(&effects, conn_id).is_empty());
    assert_eq!(effects.len(), 2);
    assert_eq!(effects[0], Effect::Observe { region_id: 1, observe_id: observe_id_of(&suite, 1) });
    assert!(matches!(effects[1], Effect::SpawnScan(_)));

    // duplicate request error.
    req.request_id = 1;
    let downstream = new_downstream(2, region_epoch, RequestId(1), conn_id, KvApi::TiDb);
    let effects = suite.run(Task::Register { request: req, downstream });
    let events = sent_to(&effects, conn_id);
    assert_eq!(events.len(), 1);
    let (region_id, request_id, err) = error_of(&events[0]);
    assert_eq!(region_id, 1);
    assert_eq!(request_id, 1);
    assert_eq!(err, EventError::DuplicateRequest { region_id: 1 });
    assert_eq!(suite.capture_regions.len(), 1);
    assert!(not_sent(&effects).is_empty());

    // The first scan task of a region is initiated in register, and when it
    // fails, it should send a deregister region task, otherwise the region
    // delegate does not have resolver.
    //
    // Test non-exist region in raft router.
    let mut req = ChangeDataRequest::default();
    req.region_id = 100;
    req.request_id = 1;
    let region_epoch = req.region_epoch;
    let downstream = new_downstream(3, region_epoch, RequestId(1), conn_id, KvApi::TiDb);
    suite.add_local_reader(100);
    let effects = suite.run(Task::Register { request: req, downstream });
    // Region 100 is inserted into capture_regions.
    assert_eq!(suite.capture_regions.len(), 2);
    let scan = match &effects[1] {
        Effect::SpawnScan(task) => Initializer::new(task.clone()),
        other => panic!("unexpected task {:?}", other),
    };
    let not_found = Error::Request(RegionError::RegionNotFound { region_id: 100 });
    match scan.deregister_downstream(not_found) {
        Deregister::Delegate { region_id, err, .. } => {
            assert_eq!(region_id, 100);
            assert!(matches!(err, Error::Request(_)), "{:?}", err);
        }
        other => panic!("unexpected task {:?}", other),
    }

    // Test errors on CaptureChange message.
    req.region_id = 101;
    req.request_id = 1;
    suite.add_local_reader(101);
    let downstream = new_downstream(4, region_epoch, RequestId(1), conn_id, KvApi::TiDb);
    let effects = suite.run(Task::Register { request: req, downstream });
    // Drop CaptureChange message, it should cause scan task failure.
    assert_eq!(suite.capture_regions.len(), 3);
    let scan = match &effects[1] {
        Effect::SpawnScan(task) => Initializer::new(task.clone()),
        other => panic!("unexpected task {:?}", other),
    };
    match scan.deregister_downstream(Error::Other) {
        Deregister::Downstream { region_id, err, .. } => {
            assert_eq!(region_id, 101);
            assert!(matches!(err, Some(Error::Other)), "{:?}", err);
        }
        other => panic!("unexpected task {:?}", other),
    }
}

#[test]
fn test_too_many_scan_tasks() {
    let cfg = CdcConfig {
        min_ts_interval: 60 * 1000,
        incremental_scan_concurrency: 1,
        incremental_scan_concurrency_limit: 1,
        ..CdcConfig::default_config()
    };
    let mut suite = mock_endpoint(&cfg, ApiVersion::V1);

    suite.add_local_reader(1);
    let conn_id = ConnId(1);
    let conn = Conn::new(conn_id);
    suite.run(Task::OpenConn { conn });

    // Enable batch resolved ts in the test.
    let version = FeatureGate::batch_resolved_ts();
    suite.run(set_conn_version_task(conn_id, version));

    let mut req = ChangeDataRequest::default();
    req.cluster_id = 0;
    req.region_id = 1;
    req.request_id = 1;
    let region_epoch = req.region_epoch;
    let downstream = new_downstream(1, region_epoch, RequestId(1), conn_id, KvApi::TiDb);
    suite.run(Task::Register { request: req, downstream });
    assert_eq!(suite.capture_regions.len(), 1);

    // Test too many scan tasks error.
    req.request_id = 2;
    let downstream = new_downstream(2, region_epoch, RequestId(2), conn_id, KvApi::TiDb);
    let effects = suite.run(Task::Register { request: req, downstream });
    let events = sent_to(&effects, conn_id);
    assert_eq!(events.len(), 1);
    let (region_id, request_id, err) = error_of(&events[0]);
    assert_eq!(region_id, 1);
    assert_eq!(request_id, 2);
    assert_eq!(err, EventError::ServerIsBusy { reason: BusyReason::TooManyPendingScans });
    assert_eq!(BusyReason::TooManyPendingScans.message(), "too many pending incremental scans");

    // Once the scan has ended there is room again.
    suite.release_scan_task();
    let downstream = new_downstream(2, region_epoch, RequestId(2), conn_id, KvApi::TiDb);
    let effects = suite.run(Task::Register { request: req, downstream });
    assert!(sent_to(&effects, conn_id).is_empty());
    assert_eq!(conn_of(&suite, conn_id).downstreams_count(), 2);
}

#[test]
fn test_raw_causal_min_ts() {
    let cfg = CdcConfig { min_ts_interval: 1000, ..CdcConfig::default_config() };
    let mut suite = mock_endpoint_with_ts_provider(&cfg, ApiVersion::V2, true);
    let effects = suite.run(Task::RegisterMinTsEvent { elapsed_ms: 0 });
    assert_eq!(effects.len(), 1);
    let round = match &effects[0] {
        Effect::ArmMinTs(round) => round.clone(),
        other => panic!("unexpected task {:?}", other),
    };
    assert!(round.wait_ms <= 1500);
    assert!(round.causal_ts);
    // The timestamp is fetched from the provider of causal timestamps.
    let (mut cycle, action) = Cycle::start(&round);
    assert_eq!(action, CycleAction::Wait { ms: 1000 });
    assert_eq!(cycle.step(CycleEvent::TimerFired), CycleAction::FetchTimestamp { causal: true });
}

fn register_normal(suite: &mut Endpoint, req: &ChangeDataRequest, downstream_id: usize, req_id: RequestId, conn_id: ConnId) {
    let mut downstream = new_downstream(downstream_id, req.region_epoch, req_id, conn_id, KvApi::TiDb);
    downstream.set_state(DownstreamState::Normal);
    suite.add_local_reader(req.region_id);
    suite.run(Task::Register { request: *req, downstream });
    let observe_id = observe_id_of(suite, req.region_id);
    let i = delegate_index(suite, req.region_id);
    suite.capture_regions[i].init_lock_tracker();
    let region = Region { id: req.region_id, region_epoch: req.region_epoch };
    suite.finish_scan_locks(observe_id, region, vec![]);
}

#[test]
fn test_feature_gate() {
    let cfg = CdcConfig { min_ts_interval: 60 * 1000, ..CdcConfig::default_config() };
    let mut suite = mock_endpoint(&cfg, ApiVersion::V1);

    let conn_id = ConnId(1);
    let conn = Conn::new(conn_id);
    suite.run(Task::OpenConn { conn });

    // Enable batch resolved ts in the test.
    let version = FeatureGate::batch_resolved_ts();
    suite.run(set_conn_version_task(conn_id, version));

    let mut req = ChangeDataRequest::default();
    req.cluster_id = 0;
    req.region_id = 1;
    register_normal(&mut suite, &req, 1, RequestId(0), conn_id);
    let effects = suite.run(Task::MinTs {
        regions: vec![1],
        min_ts: TimeStamp::new(1),
        current_ts: TimeStamp::zero(),
    });
    let events = sent_to(&effects, conn_id);
    assert_eq!(events.len(), 1);
    if let CdcEvent::ResolvedTs(r) = &events[0] {
        assert_eq!(r.regions, vec![1]);
        assert_eq!(r.ts, 1);
    } else {
        panic!("unknown cdc event {:?}", events[0]);
    }

    // Register region 2 to the conn.
    req.region_id = 2;
    register_normal(&mut suite, &req, 2, RequestId(0), conn_id);
    let effects = suite.run(Task::MinTs {
        regions: vec![1, 2],
        min_ts: TimeStamp::new(2),
        current_ts: TimeStamp::zero(),
    });
    let events = sent_to(&effects, conn_id);
    assert_eq!(events.len(), 1);
    if let CdcEvent::ResolvedTs(r) = &events[0] {
        let mut regions = r.regions.clone();
        regions.as_mut_slice().sort_unstable();
        assert_eq!(regions, vec![1, 2]);
        assert_eq!(r.ts, 2);
    } else {
        panic!("unknown cdc event {:?}", events[0]);
    }

    // Register region 3 to another conn which is not support batch resolved ts.
    let conn_id2 = ConnId(2);
    let conn = Conn::new(conn_id2);
    suite.run(Task::OpenConn { conn });
    suite.run(set_conn_version_task(conn_id2, Version::new(4, 0, 5)));

    req.region_id = 3;
    req.request_id = 3;
    register_normal(&mut suite, &req, 3, RequestId(3), conn_id2);
    let effects = suite.run(Task::MinTs {
        regions: vec![1, 2, 3],
        min_ts: TimeStamp::new(3),
        current_ts: TimeStamp::zero(),
    });
    let events = sent_to(&effects, conn_id);
    assert_eq!(events.len(), 1);
    if let CdcEvent::ResolvedTs(r) = &events[0] {
        let mut regions = r.regions.clone();
        regions.as_mut_slice().sort_unstable();
        // Region 3 resolved ts must not be send to the first conn when
        // batch resolved ts is enabled.
        assert_eq!(regions, vec![1, 2]);
        assert_eq!(r.ts, 3);
    } else {
        panic!("unknown cdc event {:?}", events[0]);
    }
    let events = sent_to(&effects, conn_id2);
    assert_eq!(events.len(), 1);
    if let CdcEvent::Event(e) = &events[0] {
        assert_eq!(e.region_id, 3);
        assert_eq!(e.request_id, 3);
        match &e.event {
            EventKind::ResolvedTs(ts) => {
                assert_eq!(*ts, 3);
            }
            other => panic!("unknown event {:?}", other),
        }
    } else {
        panic!("unknown cdc event {:?}", events[0]);
    }
}

#[test]
fn test_deregister() {
    let mut suite = mock_endpoint(&CdcConfig::default_config(), ApiVersion::V1);
    suite.add_local_reader(1);

    let conn_id = ConnId(1);
    let conn = Conn::new(conn_id);
    suite.run(Task::OpenConn { conn });
    suite.run(set_conn_version_task(conn_id, Version::new(0, 0, 0)));

    let mut req = ChangeDataRequest::default();
    req.cluster_id = 0;
    req.region_id = 1;
    let region_epoch = req.region_epoch;
    let downstream = new_downstream(1, region_epoch, RequestId(0), conn_id, KvApi::TiDb);
    let downstream_id = downstream.id;
    suite.run(Task::Register { request: req, downstream });
    assert_eq!(suite.capture_regions.len(), 1);

    let not_leader = Error::Request(RegionError::NotLeader { region_id: 1 });
    let deregister = Deregister::Downstream {
        conn_id,
        request_id: RequestId(0),
        region_id: 1,
        downstream_id,
        err: Some(not_leader),
    };
    let effects = suite.run(Task::Deregister(deregister));
    let events = sent_to(&effects, conn_id);
    assert_eq!(events.len(), 1);
    let (_, _, err) = error_of(&events[0]);
    assert!(matches!(err, EventError::NotLeader { .. }));
    assert_eq!(suite.capture_regions.len(), 0);

    let downstream = new_downstream(2, region_epoch, RequestId(0), conn_id, KvApi::TiDb);
    let new_downstream_id = downstream.id;
    suite.run(Task::Register { request: req, downstream });
    assert_eq!(suite.capture_regions.len(), 1);

    let deregister = Deregister::Downstream {
        conn_id,
        request_id: RequestId(0),
        region_id: 1,
        downstream_id,
        err: Some(not_leader),
    };
    let effects = suite.run(Task::Deregister(deregister));
    assert!(effects.is_empty());
    assert_eq!(suite.capture_regions.len(), 1);

    let deregister = Deregister::Downstream {
        conn_id,
        request_id: RequestId(0),
        region_id: 1,
        downstream_id: new_downstream_id,
        err: Some(not_leader),
    };
    let effects = suite.run(Task::Deregister(deregister));
    let events = sent_to(&effects, conn_id);
    assert_eq!(events.len(), 1);
    let (_, _, err) = error_of(&events[0]);
    assert!(matches!(err, EventError::NotLeader { .. }));
    assert_eq!(suite.capture_regions.len(), 0);

    // Stale deregister should be filtered.
    let downstream = new_downstream(3, region_epoch, RequestId(0), conn_id, KvApi::TiDb);
    suite.run(Task::Register { request: req, downstream });
    assert_eq!(suite.capture_regions.len(), 1);
    let deregister = Deregister::Delegate {
        region_id: 1,
        // A stale ObserveId (different from the actual one).
        observe_id: ObserveId(u64::MAX),
        err: not_leader,
    };
    let effects = suite.run(Task::Deregister(deregister));
    assert!(effects.is_empty());
    assert_eq!(suite.capture_regions.len(), 1);
}

fn assert_batch_resolved_ts(effects: &[Effect], conn_id: ConnId, regions: Vec<u64>, resolved_ts: u64) {
    let events = sent_to(effects, conn_id);
    assert_eq!(events.len(), 1);
    if let CdcEvent::ResolvedTs(r) = &events[0] {
        assert_eq!(r.regions, regions);
        assert_eq!(r.ts, resolved_ts);
    } else {
        panic!("unknown cdc event {:?}", events[0]);
    }
}

#[test]
fn test_broadcast_resolved_ts() {
    let cfg = CdcConfig { min_ts_interval: 60 * 1000, ..CdcConfig::default_config() };
    let mut suite = mock_endpoint(&cfg, ApiVersion::V1);

    // Open two connections a and b, registers region 1, 2 to conn a and
    // region 3 to conn b.
    let mut conn_ids = vec![];
    let mut next_downstream = 1;
    for (c, region_ids) in [vec![1, 2], vec![3]].into_iter().enumerate() {
        let conn_id = ConnId(c + 1);
        conn_ids.push(conn_id);
        let conn = Conn::new(conn_id);
        suite.run(Task::OpenConn { conn });
        let version = FeatureGate::batch_resolved_ts();
        suite.run(set_conn_version_task(conn_id, version));

        for region_id in region_ids {
            let mut req = ChangeDataRequest::default();
            req.cluster_id = 0;
            req.region_id = region_id;
            register_normal(&mut suite, &req, next_downstream, RequestId(0), conn_id);
            next_downstream += 1;
        }
    }
    let (a, b) = (conn_ids[0], conn_ids[1]);

    let effects = suite.run(Task::MinTs {
        regions: vec![1],
        min_ts: TimeStamp::new(1),
        current_ts: TimeStamp::zero(),
    });
    // conn a must receive a resolved ts that only contains region 1.
    assert_batch_resolved_ts(&effects, a, vec![1], 1);
    // conn b must not receive any messages.
    assert!(sent_to(&effects, b).is_empty());

    let effects = suite.run(Task::MinTs {
        regions: vec![1, 2],
        min_ts: TimeStamp::new(2),
        current_ts: TimeStamp::zero(),
    });
    // conn a must receive a resolved ts that contains region 1 and region 2.
    assert_batch_resolved_ts(&effects, a, vec![1, 2], 2);
    // conn b must not receive any messages.
    assert!(sent_to(&effects, b).is_empty());

    let effects = suite.run(Task::MinTs {
        regions: vec![1, 2, 3],
        min_ts: TimeStamp::new(3),
        current_ts: TimeStamp::zero(),
    });
    // conn a must receive a resolved ts that contains region 1 and region 2.
    assert_batch_resolved_ts(&effects, a, vec![1, 2], 3);
    // conn b must receive a resolved ts that contains region 3.
    assert_batch_resolved_ts(&effects, b, vec![3], 3);

    let effects = suite.run(Task::MinTs {
        regions: vec![1, 3],
        min_ts: TimeStamp::new(4),
        current_ts: TimeStamp::zero(),
    });
    // conn a must receive a resolved ts that only contains region 1.
    assert_batch_resolved_ts(&effects, a, vec![1], 4);
    // conn b must receive a resolved ts that contains region 3.
    assert_batch_resolved_ts(&effects, b, vec![3], 4);
}

// Suppose there are two Conn that capture the same region,
// Region epoch = 2, Conn A with epoch = 2, Conn B with epoch = 1,
// Conn A builds resolver successfully, but is disconnected before
// scheduling resolver ready. Downstream in Conn A is unsubscribed.
// When resolver ready is installed, downstream in Conn B is unsubscribed
// too, because epoch not match.
#[test]
fn test_deregister_conn_then_delegate() {
    let mut suite = mock_endpoint(&CdcConfig::default_config(), ApiVersion::V1);
    suite.add_local_reader(1);

    // Open conn a
    let conn_id_a = ConnId(1);
    suite.run(Task::OpenConn { conn: Conn::new(conn_id_a) });
    suite.run(set_conn_version_task(conn_id_a, Version::new(0, 0, 0)));

    // Open conn b
    let conn_id_b = ConnId(2);
    suite.run(Task::OpenConn { conn: Conn::new(conn_id_b) });
    suite.run(set_conn_version_task(conn_id_b, Version::new(0, 0, 0)));

    // Register region 1 (epoch 2) at conn a.
    let mut req = ChangeDataRequest::default();
    req.cluster_id = 0;
    req.region_id = 1;
    req.region_epoch.version = 2;
    let region_epoch_2 = req.region_epoch;
    let downstream = new_downstream(1, region_epoch_2, RequestId(0), conn_id_a, KvApi::TiDb);
    suite.run(Task::Register { request: req, downstream });
    assert_eq!(suite.capture_regions.len(), 1);
    let observe_id = observe_id_of(&suite, 1);

    // Register region 1 (epoch 1) at conn b.
    let mut req = ChangeDataRequest::default();
    req.cluster_id = 0;
    req.region_id = 1;
    req.region_epoch.version = 1;
    let region_epoch_1 = req.region_epoch;
    let downstream = new_downstream(2, region_epoch_1, RequestId(0), conn_id_b, KvApi::TiDb);
    suite.run(Task::Register { request: req, downstream });
    assert_eq!(suite.capture_regions.len(), 1);

    // Deregister conn a.
    suite.run(Task::Deregister(Deregister::Conn(conn_id_a)));
    assert_eq!(suite.capture_regions.len(), 1);

    // Schedule resolver ready (resolver is built by conn a).
    let region = Region { id: 1, region_epoch: region_epoch_2 };
    let i = delegate_index(&suite, 1);
    suite.capture_regions[i].init_lock_tracker();
    let mut effects = suite.run(Task::FinishScanLocks { observe_id, region, locks: vec![] });

    // Deregister deletgate due to epoch not match for conn b.
    let epoch_not_match = Error::Request(RegionError::EpochNotMatch { current: region_epoch_2 });
    effects.extend(suite.run(Task::Deregister(Deregister::Delegate {
        region_id: 1,
        observe_id,
        err: epoch_not_match,
    })));
    assert_eq!(suite.capture_regions.len(), 0);

    let events = sent_to(&effects, conn_id_b);
    assert_eq!(events.len(), 1);
    let (_, _, err) = error_of(&events[0]);
    assert_eq!(err, EventError::EpochNotMatch { current: region_epoch_2 });
}

#[test]
fn test_resolved_region_heap() {
    let mut heap = ResolvedRegionHeap::new();
    heap.push(5, TimeStamp::new(5));
    heap.push(4, TimeStamp::new(4));
    heap.push(6, TimeStamp::new(6));
    heap.push(3, TimeStamp::new(3));

    let (ts, regions) = heap.pop(0);
    assert_eq!(ts, TimeStamp::max());
    assert!(regions.is_empty());

    let (ts, regions) = heap.pop(2);
    assert_eq!(ts, TimeStamp::new(3));
    assert_eq!(regions.len(), 2);
    assert!(regions.contains(&3));
    assert!(regions.contains(&4));

    // Pop outliers more then it has.
    let (ts, regions) = heap.pop(3);
    assert_eq!(ts, TimeStamp::new(5));
    assert_eq!(regions.len(), 2);
    assert!(regions.contains(&5));
    assert!(regions.contains(&6));

    let mut heap1 = ResolvedRegionHeap::new();
    heap1.push(5, TimeStamp::new(5));
    heap1.push(4, TimeStamp::new(4));
    heap1.push(6, TimeStamp::new(6));
    heap1.push(3, TimeStamp::new(3));

    let (ts, regions) = heap1.pop(1);
    assert_eq!(ts, TimeStamp::new(3));
    assert_eq!(regions.len(), 1);
    assert!(regions.contains(&3));
}

#[test]
fn test_on_min_ts() {
    let cfg = CdcConfig {
        // Disable automatic advance resolved ts during test.
        min_ts_interval: 1000 * 1000,
        ..CdcConfig::default_config()
    };
    let mut suite = mock_endpoint(&cfg, ApiVersion::V1);

    let conn_id = ConnId(1);
    let conn = Conn::new(conn_id);
    suite.run(Task::OpenConn { conn });
    // Enable batch resolved ts in the test.
    let version = FeatureGate::batch_resolved_ts();
    suite.run(set_conn_version_task(conn_id, version));

    let mut regions = vec![];
    for id in 1..4097 {
        regions.push(id);
        suite.add_local_reader(id);

        let mut req = ChangeDataRequest::default();
        req.region_id = id;
        let region_epoch = req.region_epoch;
        let mut downstream = new_downstream(id as usize, region_epoch, RequestId(0), conn_id, KvApi::TiDb);
        downstream.state.start_scan();
        downstream.state.finish_scan();
        let effects = suite.run(Task::Register { request: req, downstream });
        assert!(sent_to(&effects, conn_id).is_empty());
        suite.release_scan_task();

        let locks = vec![KeyLock { key: vec![], lock: MiniLock::from_ts(TimeStamp::compose(0, id)) }];
        let region = Region { id, region_epoch };
        let i = delegate_index(&suite, id);
        suite.capture_regions[i].init_lock_tracker();
        let failed = suite.capture_regions[i].finish_scan_locks(region.region_epoch, locks).unwrap();
        assert!(failed.is_empty());
    }

    let effects = suite.run(Task::MinTs {
        regions,
        min_ts: TimeStamp::compose(0, 4096),
        current_ts: TimeStamp::compose(0, 4096),
    });

    // There should be at least 3 resolved ts events.
    let events = sent_to(&effects, conn_id);
    let mut last_resolved_ts = 0;
    let mut last_batch_count = 0;
    for event in events.iter().take(3) {
        let resolved_ts: &ResolvedTs = match event {
            CdcEvent::ResolvedTs(r) => r,
            other => panic!("{:?}", other),
        };
        assert!(last_resolved_ts < resolved_ts.ts, "{:?}", event);
        assert!(last_batch_count < resolved_ts.regions.len(), "{:?}", event);
        last_resolved_ts = resolved_ts.ts;
        last_batch_count = resolved_ts.regions.len();
    }
    assert!(events.len() >= 3);
}

fn region_not_found(event: &CdcEvent) -> bool {
    matches!(error_of(event).2, EventError::RegionNotFound { .. })
}

#[test]
fn test_register_deregister_with_multiplexing() {
    let cfg = CdcConfig { min_ts_interval: 60 * 1000, ..CdcConfig::default_config() };
    let mut suite = mock_endpoint(&cfg, ApiVersion::V1);
    suite.add_local_reader(1);

    let conn_id = ConnId(1);
    let conn = Conn::new(conn_id);
    suite.run(Task::OpenConn { conn });

    let version = FeatureGate::batch_resolved_ts();
    suite.run(set_conn_version_task(conn_id, version));

    let mut req = ChangeDataRequest::default();
    req.cluster_id = 0;

    req.region_id = 1;
    req.request_id = 1;
    let region_epoch = req.region_epoch;
    let downstream = new_downstream(1, region_epoch, RequestId(1), conn_id, KvApi::TiDb);
    suite.run(Task::Register { request: req, downstream });
    assert_eq!(conn_of(&suite, conn_id).downstreams_count(), 1);

    // Subscribe one region with a different request_id is allowed.
    req.request_id = 2;
    let downstream = new_downstream(2, region_epoch, RequestId(2), conn_id, KvApi::TiDb);
    suite.run(Task::Register { request: req, downstream });
    assert_eq!(conn_of(&suite, conn_id).downstreams_count(), 2);

    // Subscribe one region with a same request_id is not allowed.
    req.request_id = 2;
    let downstream = new_downstream(3, region_epoch, RequestId(2), conn_id, KvApi::TiDb);
    let effects = suite.run(Task::Register { request: req, downstream });
    assert_eq!(conn_of(&suite, conn_id).downstreams_count(), 2);
    let events = sent_to(&effects, conn_id);
    assert_eq!(events.len(), 1);
    let check = matches!(error_of(&events[0]).2, EventError::DuplicateRequest { .. });
    assert!(check);

    // Deregister an unexist downstream.
    suite.run(Task::Deregister(Deregister::Downstream {
        conn_id,
        request_id: RequestId(1),
        region_id: 1,
        downstream_id: DownstreamId(usize::MAX),
        err: None,
    }));
    assert_eq!(conn_of(&suite, conn_id).downstreams_count(), 2);

    // Deregister an unexist delegate.
    suite.run(Task::Deregister(Deregister::Delegate {
        region_id: 1,
        observe_id: ObserveId(u64::MAX),
        err: Error::Rocks,
    }));
    assert_eq!(conn_of(&suite, conn_id).downstreams_count(), 2);

    // Deregister an exist downstream.
    let downstream_id = suite.capture_regions[delegate_index(&suite, 1)].downstreams()[0].id;
    let effects = suite.run(Task::Deregister(Deregister::Downstream {
        conn_id,
        request_id: RequestId(1),
        region_id: 1,
        downstream_id,
        err: Some(Error::Rocks),
    }));
    assert_eq!(conn_of(&suite, conn_id).downstreams_count(), 1);
    let events = sent_to(&effects, conn_id);
    assert_eq!(events.len(), 1);
    assert!(region_not_found(&events[0]));

    // Subscribe one region with a different request_id is allowed.
    req.request_id = 1;
    let downstream = new_downstream(4, region_epoch, RequestId(1), conn_id, KvApi::TiDb);
    suite.run(Task::Register { request: req, downstream });
    assert_eq!(conn_of(&suite, conn_id).downstreams_count(), 2);

    // Deregister an exist delegate.
    let observe_id = observe_id_of(&suite, 1);
    let effects = suite.run(Task::Deregister(Deregister::Delegate {
        region_id: 1,
        observe_id,
        err: Error::Rocks,
    }));
    assert_eq!(conn_of(&suite, conn_id).downstreams_count(), 0);
    assert_eq!(suite.capture_regions.len(), 0);
    let events = sent_to(&effects, conn_id);
    assert_eq!(events.len(), 2);
    for event in &events {
        assert!(region_not_found(event));
    }

    // Resubscribe the region.
    for i in 1..=2 {
        req.request_id = i as _;
        let downstream = new_downstream(4 + i, region_epoch, RequestId(i as u64), conn_id, KvApi::TiDb);
        suite.run(Task::Register { request: req, downstream });
        assert_eq!(conn_of(&suite, conn_id).downstreams_count(), i as usize);
    }

    // Deregister the request.
    let mut effects = suite.run(Task::Deregister(Deregister::Request {
        conn_id,
        request_id: RequestId(1),
    }));
    assert_eq!(conn_of(&suite, conn_id).downstreams_count(), 1);
    effects.extend(suite.run(Task::Deregister(Deregister::Request {
        conn_id,
        request_id: RequestId(2),
    })));
    assert_eq!(conn_of(&suite, conn_id).downstreams_count(), 0);
    assert_eq!(suite.capture_regions.len(), 0);
    let events = sent_to(&effects, conn_id);
    assert_eq!(events.len(), 2);
    for event in &events {
        assert!(region_not_found(event));
    }

    // Resubscribe the region.
    suite.add_local_reader(2);
    for i in 1..=2 {
        req.request_id = 1;
        req.region_id = i;
        let downstream = new_downstream(6 + i as usize, region_epoch, RequestId(1), conn_id, KvApi::TiDb);
        suite.run(Task::Register { request: req, downstream });
        assert_eq!(conn_of(&suite, conn_id).downstreams_count(), i as usize);
    }

    // Deregister regions one by one in the request.
    let mut effects = suite.run(Task::Deregister(Deregister::Region {
        conn_id,
        request_id: RequestId(1),
        region_id: 1,
    }));
    assert_eq!(conn_of(&suite, conn_id).downstreams_count(), 1);
    assert_eq!(suite.capture_regions.len(), 1);

    effects.extend(suite.run(Task::Deregister(Deregister::Region {
        conn_id,
        request_id: RequestId(1),
        region_id: 2,
    })));
    assert_eq!(conn_of(&suite, conn_id).downstreams_count(), 0);
    assert_eq!(suite.capture_regions.len(), 0);

    let events = sent_to(&effects, conn_id);
    assert_eq!(events.len(), 2);
    for event in &events {
        assert!(region_not_found(event));
    }
}

#[test]
fn test_register_after_connection_deregistered() {
    let cfg = CdcConfig { min_ts_interval: 60 * 1000, ..CdcConfig::default_config() };
    let mut suite = mock_endpoint(&cfg, ApiVersion::V1);
    suite.add_local_reader(1);

    let conn_id = ConnId(1);
    let conn = Conn::new(conn_id);
    suite.run(Task::OpenConn { conn });

    suite.run(Task::Deregister(Deregister::Conn(conn_id)));

    let mut req = ChangeDataRequest::default();

    req.region_id = 1;
    req.request_id = 1;
    let region_epoch = req.region_epoch;
    let downstream = new_downstream(1, region_epoch, RequestId(1), conn_id, KvApi::TiDb);
    let effects = suite.run(Task::Register { request: req, downstream });
    assert!(suite.connections.is_empty());
    assert!(effects.is_empty());
    assert!(suite.capture_regions.is_empty());
}

#[test]
fn config_change_none_is_empty_diff() {
    let cfg = CdcConfig::default_config();
    assert_eq!(cfg.diff(&cfg), ConfigChange::none());
}
