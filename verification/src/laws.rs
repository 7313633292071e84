//! What holds of the engine whatever it is sent. Each law is stated over
//! the model that the engine's functions are verified against.

use vstd::prelude::*;
use crate::advance::{AdvanceView, CompatEntry, HeapGroupView, Slowest, batch_effect, emit_compat, emit_groups, emit_heap, single_effect, takes_batches};
use crate::config::ConfigChange;
use crate::conn::{ConnView, conn_index, features_of};
use crate::delegate::{blocked_by_lock, resolved_ts};
use crate::downstream::{DownstreamView, spec_validate_kv_api};
use crate::effect::EffectView;
use crate::error::{BusyReason, Error, EventError};
use crate::event::CdcEventView;
use crate::heap::{ResolvedRegion, distinct_regions, min_resolved_ts, popped_len};
use crate::ids::{ConnId, DownstreamId, ObserveId, RequestId};
use crate::lock::{KeyLockView, lemma_min_lock_ts};
use crate::model::{EndpointView, region_index};
use crate::seqs::{is_first, lemma_first_index, lemma_first_index_found};
use crate::task::{ChangeDataRequest, Deregister};
use crate::timestamp::TimeStamp;

verus! {

/// Uniqueness, first half. A registration that is accepted is one whose
/// request did not watch the region; afterwards the request watches it
/// through the new subscription, one more scan is pending, and the scan
/// is the last thing asked for.
pub proof fn lemma_register_accepted(s: EndpointView, request: ChangeDataRequest, downstream: DownstreamView)
    requires
        conn_index(s.connections, downstream.conn_id) matches Some(c) && s.refusal(
            s.connections[c],
            request,
            downstream,
        ) is None,
    ensures
        ({
            let c = conn_index(s.connections, downstream.conn_id)->Some_0;
            let after = s.on_register(request, downstream);
            let request_id = RequestId(request.request_id);
            &&& s.connections[c].get_downstream(request_id, request.region_id) is None
            &&& after.0.connections[c].get_downstream(request_id, request.region_id) == Some(
                downstream.id,
            )
            &&& after.0.scan_task_count == s.scan_task_count + 1
            &&& after.1.len() > 0
            &&& after.1.last() is SpawnScan
            &&& region_index(after.0.capture_regions, request.region_id) is Some
        }),
{
    let c = conn_index(s.connections, downstream.conn_id)->Some_0;
    lemma_first_index(s.connections, crate::conn::conn_with_id(downstream.conn_id));
    crate::consistency::lemma_get_after_subscribe(
        s.connections[c],
        RequestId(request.request_id),
        request.region_id,
        downstream.id,
        RequestId(request.request_id),
        request.region_id,
    );
    let p = crate::model::delegate_of(request.region_id);
    lemma_first_index(s.capture_regions, p);
    let after = s.on_register(request, downstream);
    match region_index(s.capture_regions, request.region_id) {
        Some(i) => {
            assert(is_first(after.0.capture_regions, p, i)) by {
                assert forall|j: int| 0 <= j < i implies !p(#[trigger] after.0.capture_regions[j]) by {
                    assert(after.0.capture_regions[j] == s.capture_regions[j]);
                }
            }
            lemma_first_index_found(after.0.capture_regions, p, i);
        },
        None => {
            let n = s.capture_regions.len() as int;
            assert(is_first(after.0.capture_regions, p, n)) by {
                assert forall|j: int| 0 <= j < n implies !p(#[trigger] after.0.capture_regions[j]) by {
                    assert(after.0.capture_regions[j] == s.capture_regions[j]);
                }
            }
            lemma_first_index_found(after.0.capture_regions, p, n);
        },
    }
}

/// Uniqueness, second half. A registration by a request that watches the
/// region already, and that passes the checks made before, is refused as
/// a duplicate: the client is told so, and nothing changes.
pub proof fn lemma_register_duplicate(s: EndpointView, request: ChangeDataRequest, downstream: DownstreamView)
    requires
        conn_index(s.connections, downstream.conn_id) matches Some(c) && s.connections[c].get_downstream(
            RequestId(request.request_id),
            request.region_id,
        ) is Some && !(s.connections[c].features().validate_cluster_id && s.cluster_id
            != request.cluster_id),
        spec_validate_kv_api(request.kv_api, s.api_version),
        s.scan_task_count < s.config.incremental_scan_concurrency_limit,
        s.local_readers.contains(request.region_id),
    ensures
        s.on_register(request, downstream) == (
            s,
            seq![
                EffectView::send_error(
                    downstream.conn_id,
                    request.region_id,
                    downstream.req_id,
                    EventError::DuplicateRequest { region_id: request.region_id },
                ),
            ],
        ),
{
}

/// Admission control. While as many scans are pending as the settings
/// admit, a registration that passes the checks made before is refused:
/// the client is told that the server is busy, and nothing changes.
pub proof fn lemma_register_busy(s: EndpointView, request: ChangeDataRequest, downstream: DownstreamView)
    requires
        conn_index(s.connections, downstream.conn_id) matches Some(c) && !(s.connections[c].features().validate_cluster_id
            && s.cluster_id != request.cluster_id),
        spec_validate_kv_api(request.kv_api, s.api_version),
        s.scan_task_count >= s.config.incremental_scan_concurrency_limit,
    ensures
        s.on_register(request, downstream) == (
            s,
            seq![
                EffectView::send_error(
                    downstream.conn_id,
                    request.region_id,
                    downstream.req_id,
                    EventError::ServerIsBusy { reason: BusyReason::TooManyPendingScans },
                ),
            ],
        ),
{
}

/// A registration that is refused, for whatever reason, or that names a
/// connection that is not there, changes nothing.
pub proof fn lemma_register_refused(s: EndpointView, request: ChangeDataRequest, downstream: DownstreamView)
    requires
        match conn_index(s.connections, downstream.conn_id) {
            Some(c) => s.refusal(s.connections[c], request, downstream) is Some,
            None => true,
        },
    ensures
        s.on_register(request, downstream).0 == s,
        s.on_register(request, downstream).1.len() <= 1,
{
}

/// Stale messages, regions. A deregistration of a region that is not
/// captured, or that is observed under another epoch than the message
/// names, changes nothing and asks for nothing.
pub proof fn lemma_stale_delegate(s: EndpointView, region_id: u64, observe_id: ObserveId, err: Error)
    requires
        match region_index(s.capture_regions, region_id) {
            Some(i) => s.capture_regions[i].observe_id != observe_id,
            None => true,
        },
    ensures
        s.on_deregister(Deregister::Delegate { region_id, observe_id, err }) == (
            s,
            Seq::<EffectView>::empty(),
        ),
{
}

/// Stale messages, subscriptions. A deregistration of a subscription
/// changes nothing and asks for nothing if its connection is not there,
/// or if the request does not watch the region through the subscription
/// that the message names.
pub proof fn lemma_stale_downstream(
    s: EndpointView,
    conn_id: ConnId,
    request_id: RequestId,
    region_id: u64,
    downstream_id: DownstreamId,
    err: Option<Error>,
)
    requires
        match conn_index(s.connections, conn_id) {
            Some(c) => s.connections[c].get_downstream(request_id, region_id) != Some(downstream_id),
            None => true,
        },
    ensures
        s.on_deregister(
            Deregister::Downstream { conn_id, request_id, region_id, downstream_id, err },
        ) == (s, Seq::<EffectView>::empty()),
{
}

/// Stale messages, scans. Locks that a scan delivers, and the report of
/// a scan, for a region that is not captured or is observed under
/// another epoch, change nothing.
pub proof fn lemma_stale_scan(
    s: EndpointView,
    observe_id: ObserveId,
    region: crate::task::Region,
    locks: Seq<KeyLockView>,
    downstream_id: DownstreamId,
)
    requires
        match region_index(s.capture_regions, region.id) {
            Some(i) => s.capture_regions[i].observe_id != observe_id,
            None => true,
        },
    ensures
        s.finish_scan_locks(observe_id, region, locks) == (s, Seq::<EffectView>::empty()),
        s.on_init_downstream(region.id, observe_id, downstream_id).0 == s,
{
}

/// Changing the settings twice by the same change is the same as
/// changing them once: the second time nothing changes and nothing is
/// asked for. After a change the settings are valid: the scan
/// concurrency is not below the number of scan threads.
pub proof fn lemma_change_cfg_idempotent(s: EndpointView, change: ConfigChange)
    ensures
        s.on_change_cfg(change).on_change_cfg(change) == s.on_change_cfg(change),
        s.on_change_cfg(change).config_effects(change) == Seq::<EffectView>::empty(),
        s.on_change_cfg(change).config.valid(s.raftstore_v2),
        s.on_change_cfg(change).config.incremental_scan_concurrency >= s.on_change_cfg(
            change,
        ).config.incremental_scan_threads,
{
    let once = s.on_change_cfg(change);
    assert(once.next_config(change) == once.config);
    assert(once.config_effects(change) =~= Seq::<EffectView>::empty());
}

/// A change that sets the scan concurrency below the number of scan
/// threads sets it to that number.
pub proof fn lemma_change_cfg_clamps(s: EndpointView, concurrency: usize)
    requires
        s.config.incremental_scan_threads > 0,
        concurrency < s.config.incremental_scan_threads,
    ensures
        s.on_change_cfg(
            ConfigChange {
                incremental_scan_concurrency: Some(concurrency),
                ..ConfigChange::spec_none()
            },
        ).config.incremental_scan_concurrency == s.config.incremental_scan_threads,
{
}

/// A region's resolved timestamp is never beyond the timestamp up to
/// which the store is safe, nor beyond the start of a lock that is held
/// in the region.
pub proof fn lemma_resolved_ts_bounds(min_ts: TimeStamp, locks: Seq<KeyLockView>)
    ensures
        resolved_ts(min_ts, locks) <= min_ts.0,
        forall|i: int| 0 <= i < locks.len() ==> resolved_ts(min_ts, locks) <= (#[trigger] locks[i]).lock.ts.0,
        !blocked_by_lock(min_ts, locks) ==> resolved_ts(min_ts, locks) == min_ts.0,
{
    lemma_min_lock_ts(locks);
}

/// A region moves forward only, and never beyond the timestamp up to
/// which the store is safe, nor beyond the start of a lock that is held
/// in it. A region that has no lock table yet does not move.
pub proof fn lemma_region_advances(d: crate::delegate::DelegateView, min_ts: TimeStamp)
    ensures
        d.advanced(min_ts).resolved_ts.0 >= d.resolved_ts.0,
        d.advanced(min_ts) == (crate::delegate::DelegateView {
            resolved_ts: d.advanced(min_ts).resolved_ts,
            ..d
        }),
        d.advanced(min_ts).resolved_ts != d.resolved_ts ==> d.advanced(min_ts).resolved_ts.0
            <= min_ts.0 && (d.lock_tracker matches crate::lock::LockTrackerView::Prepared {
            locks,
            ..
        } && forall|i: int|
            0 <= i < locks.len() ==> d.advanced(min_ts).resolved_ts.0 <= (#[trigger] locks[i]).lock.ts.0),
{
    match d.lock_tracker {
        crate::lock::LockTrackerView::Prepared { locks, .. } => {
            lemma_resolved_ts_bounds(min_ts, locks);
        },
        _ => {},
    }
}

/// Nothing but a resolution cycle moves a region: subscriptions that
/// come and go, scans that report and deliver, and batches of commands
/// leave its resolved timestamp where it is.
pub proof fn lemma_region_stays(
    d: crate::delegate::DelegateView,
    downstream: DownstreamView,
    id: DownstreamId,
    err: Error,
    epoch: crate::error::RegionEpoch,
    scanned: Seq<KeyLockView>,
    batch: crate::batch::CmdBatchView,
    out: Seq<EffectView>,
)
    ensures
        d.subscribe(downstream).resolved_ts == d.resolved_ts,
        d.unsubscribe(id, Some(err)).0.resolved_ts == d.resolved_ts,
        d.stop(err).0.resolved_ts == d.resolved_ts,
        d.init_lock_tracker().resolved_ts == d.resolved_ts,
        d.finish_scan_locks(epoch, scanned) matches Ok(after) ==> after.resolved_ts == d.resolved_ts,
        d.on_batch(batch, out).0.resolved_ts == d.resolved_ts,
{
    crate::invariants::lemma_apply_cmds_frame(d, batch.cmds, out);
}

/// Whether the effect is a batch of resolved timestamps for a connection
/// that takes none.
pub open spec fn misdirected_batch(conns: Seq<ConnView>, e: EffectView) -> bool {
    match e {
        EffectView::Send { conn_id, event: CdcEventView::ResolvedTs(_) } => !takes_batches(
            conns,
            conn_id,
        ),
        _ => false,
    }
}

/// No effect among `out` is a batch for a connection that takes none.
pub open spec fn batches_well_directed(conns: Seq<ConnView>, out: Seq<EffectView>) -> bool {
    forall|i: int| 0 <= i < out.len() ==> !misdirected_batch(conns, #[trigger] out[i])
}

proof fn lemma_emit_heap_directed(
    conns: Seq<ConnView>,
    conn_id: ConnId,
    request_id: RequestId,
    heap: Seq<ResolvedRegion>,
    count: usize,
    acc: Slowest,
    out: Seq<EffectView>,
)
    requires
        batches_well_directed(conns, out),
    ensures
        batches_well_directed(
            conns,
            emit_heap(takes_batches(conns, conn_id), conn_id, request_id, heap, count, acc, out).0,
        ),
    decreases heap.len(),
{
    let send = takes_batches(conns, conn_id);
    if heap.len() == 0 || count == 0 {
    } else {
        let k = popped_len(heap.len(), count);
        let ts = min_resolved_ts(heap.take(k));
        let regions = distinct_regions(heap.take(k));
        if send {
            let next = out.push(batch_effect(conn_id, request_id, ts, regions));
            assert forall|i: int| 0 <= i < next.len() implies !misdirected_batch(
                conns,
                #[trigger] next[i],
            ) by {
                if i < out.len() {
                    assert(next[i] == out[i]);
                }
            }
            lemma_emit_heap_directed(
                conns,
                conn_id,
                request_id,
                heap.skip(k),
                crate::advance::grow(count),
                acc.batch(ts, regions),
                next,
            );
        } else {
            lemma_emit_heap_directed(
                conns,
                conn_id,
                request_id,
                heap.skip(k),
                crate::advance::grow(count),
                acc,
                out,
            );
        }
    }
}

proof fn lemma_emit_groups_directed(
    groups: Seq<HeapGroupView>,
    conns: Seq<ConnView>,
    acc: Slowest,
    out: Seq<EffectView>,
)
    requires
        batches_well_directed(conns, out),
    ensures
        batches_well_directed(conns, emit_groups(groups, conns, acc, out).0),
    decreases groups.len(),
{
    if groups.len() > 0 {
        let g = groups.first();
        lemma_emit_heap_directed(
            conns,
            g.conn_id,
            g.request_id,
            g.heap,
            crate::advance::FIRST_BATCH,
            acc,
            out,
        );
        let step = emit_heap(
            takes_batches(conns, g.conn_id),
            g.conn_id,
            g.request_id,
            g.heap,
            crate::advance::FIRST_BATCH,
            acc,
            out,
        );
        lemma_emit_groups_directed(groups.drop_first(), conns, step.1, step.0);
    }
}

proof fn lemma_emit_compat_directed(
    entries: Seq<CompatEntry>,
    conns: Seq<ConnView>,
    acc: Slowest,
    out: Seq<EffectView>,
)
    requires
        batches_well_directed(conns, out),
    ensures
        batches_well_directed(conns, emit_compat(entries, conns, acc, out).0),
    decreases entries.len(),
{
    if entries.len() > 0 {
        let e = entries.first();
        if features_of(conns, e.conn_id) is Some {
            let next = out.push(single_effect(e));
            assert forall|i: int| 0 <= i < next.len() implies !misdirected_batch(
                conns,
                #[trigger] next[i],
            ) by {
                if i < out.len() {
                    assert(next[i] == out[i]);
                }
            }
            lemma_emit_compat_directed(
                entries.drop_first(),
                conns,
                acc.single(e.ts.0, e.region_id),
                next,
            );
        } else {
            lemma_emit_compat_directed(entries.drop_first(), conns, acc, out);
        }
    }
}

/// Older clients. Whatever a cycle has gathered, no batch of resolved
/// timestamps goes to a connection that has not negotiated batches.
pub proof fn lemma_no_batch_without_feature(advance: AdvanceView, conns: Seq<ConnView>)
    ensures
        batches_well_directed(conns, advance.emitted(conns).0),
{
    let multiplexed = emit_groups(advance.multiplexing, conns, Slowest::none(), Seq::empty());
    lemma_emit_groups_directed(advance.multiplexing, conns, Slowest::none(), Seq::empty());
    let batched = emit_groups(advance.exclusive, conns, multiplexed.1, multiplexed.0);
    lemma_emit_groups_directed(advance.exclusive, conns, multiplexed.1, multiplexed.0);
    lemma_emit_compat_directed(advance.compat, conns, Slowest::none(), batched.0);
}

/// Older clients. The resolved timestamp of a region for a subscription
/// whose connection has negotiated neither batches nor multiplexing is
/// entered for that region alone, and the groups stay as they are.
pub proof fn lemma_record_single(
    advance: AdvanceView,
    features: crate::feature::FeatureGate,
    conn_id: ConnId,
    request_id: RequestId,
    region: ResolvedRegion,
)
    requires
        !features.batch_resolved_ts,
        !features.stream_multiplexing,
    ensures
        advance.record(features, conn_id, request_id, region).multiplexing == advance.multiplexing,
        advance.record(features, conn_id, request_id, region).exclusive == advance.exclusive,
        advance.record(features, conn_id, request_id, region).compat.contains(
            CompatEntry { conn_id, region_id: region.region_id, request_id, ts: region.resolved_ts },
        ),
{
    let entry = CompatEntry { conn_id, region_id: region.region_id, request_id, ts: region.resolved_ts };
    let p = crate::advance::compat_of(conn_id, region.region_id);
    lemma_first_index(advance.compat, p);
    let after = advance.record(features, conn_id, request_id, region).compat;
    match crate::seqs::first_index(advance.compat, p) {
        Some(i) => {
            assert(after[i] == entry);
        },
        None => {
            assert(after[advance.compat.len() as int] == entry);
        },
    }
}


/// Whether the effect is a batch whose timestamp is beyond what `heap`
/// holds for one of the regions that the batch lists, or that lists a
/// region that `heap` does not hold.
pub open spec fn unsafe_batch(heap: Seq<ResolvedRegion>, e: EffectView) -> bool {
    match e {
        EffectView::Send { event: CdcEventView::ResolvedTs(batch), .. } => exists|r: int|
            0 <= r < batch.regions.len() && !covered(heap, batch.ts, #[trigger] batch.regions[r]),
        _ => false,
    }
}

/// `heap` holds the region with a timestamp that is not behind `ts`.
pub open spec fn covered(heap: Seq<ResolvedRegion>, ts: u64, region_id: u64) -> bool {
    exists|i: int|
        0 <= i < heap.len() && (#[trigger] heap[i]).region_id == region_id && ts
            <= heap[i].resolved_ts.0
}

/// The effects from place `from` on are safe batches of `heap`, or no
/// batches.
pub open spec fn batches_safe_from(heap: Seq<ResolvedRegion>, out: Seq<EffectView>, from: int) -> bool {
    forall|j: int| from <= j < out.len() ==> !unsafe_batch(heap, #[trigger] out[j])
}

/// A batch never claims more than its regions have: the timestamp of
/// every batch that is sent for a group is at most the resolved
/// timestamp that the group holds for each region that the batch lists.
pub proof fn lemma_batches_are_safe(
    send: bool,
    conn_id: ConnId,
    request_id: RequestId,
    heap: Seq<ResolvedRegion>,
    count: usize,
    acc: Slowest,
    out: Seq<EffectView>,
)
    ensures
        emit_heap(send, conn_id, request_id, heap, count, acc, out).0.len() >= out.len(),
        batches_safe_from(
            heap,
            emit_heap(send, conn_id, request_id, heap, count, acc, out).0,
            out.len() as int,
        ),
        forall|j: int|
            0 <= j < out.len() ==> emit_heap(send, conn_id, request_id, heap, count, acc, out).0[j]
                == out[j],
    decreases heap.len(),
{
    if heap.len() == 0 || count == 0 {
    } else {
        let k = popped_len(heap.len(), count);
        let taken = heap.take(k);
        let rest = heap.skip(k);
        let ts = min_resolved_ts(taken);
        let regions = distinct_regions(taken);
        let next = if send {
            out.push(batch_effect(conn_id, request_id, ts, regions))
        } else {
            out
        };
        let next_acc = if send {
            acc.batch(ts, regions)
        } else {
            acc
        };
        lemma_batches_are_safe(
            send,
            conn_id,
            request_id,
            rest,
            crate::advance::grow(count),
            next_acc,
            next,
        );
        let result = emit_heap(send, conn_id, request_id, heap, count, acc, out).0;
        crate::heap::lemma_min_resolved_ts(taken);
        crate::heap::lemma_distinct_regions(taken);
        assert forall|j: int| out.len() <= j < result.len() implies !unsafe_batch(
            heap,
            #[trigger] result[j],
        ) by {
            if send && j == out.len() {
                assert(result[j] == next[j]);
                assert forall|r: int| 0 <= r < regions.len() implies covered(
                    heap,
                    ts,
                    #[trigger] regions[r],
                ) by {
                    assert(regions.contains(regions[r]));
                    let i = choose|i: int|
                        0 <= i < taken.len() && (#[trigger] taken[i]).region_id == regions[r];
                    assert(heap[i] == taken[i]);
                }
            } else {
                assert(!unsafe_batch(rest, result[j]));
                match result[j] {
                    EffectView::Send { event: CdcEventView::ResolvedTs(batch), .. } => {
                        assert forall|r: int| 0 <= r < batch.regions.len() implies covered(
                            heap,
                            batch.ts,
                            #[trigger] batch.regions[r],
                        ) by {
                            assert(covered(rest, batch.ts, batch.regions[r]));
                            let i = choose|i: int|
                                0 <= i < rest.len() && (#[trigger] rest[i]).region_id
                                    == batch.regions[r] && batch.ts <= rest[i].resolved_ts.0;
                            assert(heap[i + k] == rest[i]);
                        }
                    },
                    _ => {},
                }
            }
        }
        assert forall|j: int| 0 <= j < out.len() implies result[j] == out[j] by {
            assert(next[j] == out[j]);
        }
    }
}


/// Older clients. The entries for single regions go out one message
/// each, in their order, where the connections are there.
pub proof fn lemma_single_events(
    entries: Seq<CompatEntry>,
    conns: Seq<ConnView>,
    acc: Slowest,
    out: Seq<EffectView>,
)
    requires
        forall|i: int| 0 <= i < entries.len() ==> features_of(conns, (#[trigger] entries[i]).conn_id) is Some,
    ensures
        emit_compat(entries, conns, acc, out).0 == out + Seq::new(
            entries.len(),
            |i: int| single_effect(entries[i]),
        ),
    decreases entries.len(),
{
    let singles = Seq::new(entries.len(), |i: int| single_effect(entries[i]));
    if entries.len() == 0 {
        assert(out + singles =~= out);
    } else {
        let e = entries.first();
        let rest = entries.drop_first();
        assert(features_of(conns, entries[0].conn_id) is Some);
        assert forall|i: int| 0 <= i < rest.len() implies features_of(
            conns,
            (#[trigger] rest[i]).conn_id,
        ) is Some by {
            assert(rest[i] == entries[i + 1]);
        }
        lemma_single_events(rest, conns, acc.single(e.ts.0, e.region_id), out.push(single_effect(e)));
        let rest_singles = Seq::new(rest.len(), |i: int| single_effect(rest[i]));
        assert(out.push(single_effect(e)) + rest_singles =~= out + singles);
    }
}

/// Whether the effect is a message to a connection that `allowed` does
/// not hold, or no message at all.
pub open spec fn stray(allowed: spec_fn(ConnId) -> bool, e: EffectView) -> bool {
    match e {
        EffectView::Send { conn_id, .. } => !allowed(conn_id),
        _ => true,
    }
}

/// All effects are messages to connections that `allowed` holds.
pub open spec fn sent_only_to(allowed: spec_fn(ConnId) -> bool, out: Seq<EffectView>) -> bool {
    forall|j: int| 0 <= j < out.len() ==> !stray(allowed, #[trigger] out[j])
}

/// All groups are of connections that `allowed` holds.
pub open spec fn groups_only_of(allowed: spec_fn(ConnId) -> bool, groups: Seq<HeapGroupView>) -> bool {
    forall|g: int| 0 <= g < groups.len() ==> allowed((#[trigger] groups[g]).conn_id)
}

/// All that the cycle has gathered is for connections that `allowed`
/// holds.
pub open spec fn gathered_only_for(allowed: spec_fn(ConnId) -> bool, advance: AdvanceView) -> bool {
    &&& groups_only_of(allowed, advance.multiplexing)
    &&& groups_only_of(allowed, advance.exclusive)
    &&& forall|i: int| 0 <= i < advance.compat.len() ==> allowed((#[trigger] advance.compat[i]).conn_id)
}

proof fn lemma_emit_heap_only_to(
    allowed: spec_fn(ConnId) -> bool,
    send: bool,
    conn_id: ConnId,
    request_id: RequestId,
    heap: Seq<ResolvedRegion>,
    count: usize,
    acc: Slowest,
    out: Seq<EffectView>,
)
    requires
        sent_only_to(allowed, out),
        allowed(conn_id),
    ensures
        sent_only_to(allowed, emit_heap(send, conn_id, request_id, heap, count, acc, out).0),
    decreases heap.len(),
{
    if heap.len() == 0 || count == 0 {
    } else {
        let k = popped_len(heap.len(), count);
        let ts = min_resolved_ts(heap.take(k));
        let regions = distinct_regions(heap.take(k));
        if send {
            let next = out.push(batch_effect(conn_id, request_id, ts, regions));
            assert forall|j: int| 0 <= j < next.len() implies !stray(allowed, #[trigger] next[j]) by {
                if j < out.len() {
                    assert(next[j] == out[j]);
                }
            }
            lemma_emit_heap_only_to(
                allowed,
                send,
                conn_id,
                request_id,
                heap.skip(k),
                crate::advance::grow(count),
                acc.batch(ts, regions),
                next,
            );
        } else {
            lemma_emit_heap_only_to(
                allowed,
                send,
                conn_id,
                request_id,
                heap.skip(k),
                crate::advance::grow(count),
                acc,
                out,
            );
        }
    }
}

proof fn lemma_emit_groups_only_to(
    allowed: spec_fn(ConnId) -> bool,
    groups: Seq<HeapGroupView>,
    conns: Seq<ConnView>,
    acc: Slowest,
    out: Seq<EffectView>,
)
    requires
        sent_only_to(allowed, out),
        groups_only_of(allowed, groups),
    ensures
        sent_only_to(allowed, emit_groups(groups, conns, acc, out).0),
    decreases groups.len(),
{
    if groups.len() > 0 {
        let g = groups.first();
        assert(allowed(groups[0].conn_id));
        lemma_emit_heap_only_to(
            allowed,
            takes_batches(conns, g.conn_id),
            g.conn_id,
            g.request_id,
            g.heap,
            crate::advance::FIRST_BATCH,
            acc,
            out,
        );
        let step = emit_heap(
            takes_batches(conns, g.conn_id),
            g.conn_id,
            g.request_id,
            g.heap,
            crate::advance::FIRST_BATCH,
            acc,
            out,
        );
        let rest = groups.drop_first();
        assert forall|a: int| 0 <= a < rest.len() implies allowed((#[trigger] rest[a]).conn_id) by {
            assert(rest[a] == groups[a + 1]);
        }
        lemma_emit_groups_only_to(allowed, rest, conns, step.1, step.0);
    }
}

proof fn lemma_emit_compat_only_to(
    allowed: spec_fn(ConnId) -> bool,
    entries: Seq<CompatEntry>,
    conns: Seq<ConnView>,
    acc: Slowest,
    out: Seq<EffectView>,
)
    requires
        sent_only_to(allowed, out),
        forall|i: int| 0 <= i < entries.len() ==> allowed((#[trigger] entries[i]).conn_id),
    ensures
        sent_only_to(allowed, emit_compat(entries, conns, acc, out).0),
    decreases entries.len(),
{
    if entries.len() > 0 {
        let e = entries.first();
        assert(allowed(entries[0].conn_id));
        let rest = entries.drop_first();
        assert forall|a: int| 0 <= a < rest.len() implies allowed((#[trigger] rest[a]).conn_id) by {
            assert(rest[a] == entries[a + 1]);
        }
        if features_of(conns, e.conn_id) is Some {
            let next = out.push(single_effect(e));
            assert forall|j: int| 0 <= j < next.len() implies !stray(allowed, #[trigger] next[j]) by {
                if j < out.len() {
                    assert(next[j] == out[j]);
                }
            }
            lemma_emit_compat_only_to(allowed, rest, conns, acc.single(e.ts.0, e.region_id), next);
        } else {
            lemma_emit_compat_only_to(allowed, rest, conns, acc, out);
        }
    }
}

proof fn lemma_push_group_only_of(
    allowed: spec_fn(ConnId) -> bool,
    groups: Seq<HeapGroupView>,
    conn_id: ConnId,
    request_id: Option<RequestId>,
    region: ResolvedRegion,
)
    requires
        groups_only_of(allowed, groups),
        allowed(conn_id),
    ensures
        groups_only_of(allowed, crate::advance::push_group(groups, conn_id, request_id, region)),
{
    let after = crate::advance::push_group(groups, conn_id, request_id, region);
    lemma_first_index(groups, crate::advance::group_of(conn_id, request_id));
    assert forall|g: int| 0 <= g < after.len() implies allowed((#[trigger] after[g]).conn_id) by {
        if g < groups.len() {
            assert(after[g].conn_id == groups[g].conn_id);
        }
    }
}

proof fn lemma_record_only_for(
    allowed: spec_fn(ConnId) -> bool,
    advance: AdvanceView,
    features: crate::feature::FeatureGate,
    conn_id: ConnId,
    request_id: RequestId,
    region: ResolvedRegion,
)
    requires
        gathered_only_for(allowed, advance),
        allowed(conn_id),
    ensures
        gathered_only_for(allowed, advance.record(features, conn_id, request_id, region)),
{
    let after = advance.record(features, conn_id, request_id, region);
    if features.stream_multiplexing {
        lemma_push_group_only_of(allowed, advance.multiplexing, conn_id, Some(request_id), region);
    } else if features.batch_resolved_ts {
        lemma_push_group_only_of(allowed, advance.exclusive, conn_id, None, region);
    } else {
        lemma_first_index(advance.compat, crate::advance::compat_of(conn_id, region.region_id));
        assert forall|i: int| 0 <= i < after.compat.len() implies allowed(
            (#[trigger] after.compat[i]).conn_id,
        ) by {
            if i < advance.compat.len() {
                assert(after.compat[i].conn_id == advance.compat[i].conn_id || after.compat[i].conn_id
                    == conn_id);
            }
        }
    }
}

/// Tells the connections that have a subscription whose scan is done in
/// one of the regions with the ids.
pub open spec fn ready_watchers(regions: Seq<crate::delegate::DelegateView>, ids: Seq<u64>) -> spec_fn(
    ConnId,
) -> bool {
    |c: ConnId|
        exists|i: int, k: int|
            0 <= i < regions.len() && 0 <= k < regions[i].downstreams.len() && ids.contains(
                regions[i].region_id,
            ) && (#[trigger] regions[i].downstreams[k]).conn_id == c
                && regions[i].downstreams[k].state.spec_ready_for_advancing_ts()
}

proof fn lemma_advance_downstreams_only_for(
    allowed: spec_fn(ConnId) -> bool,
    region_id: u64,
    ds: Seq<DownstreamView>,
    ts: Option<u64>,
    blocked: bool,
    conns: Seq<ConnView>,
    advance: AdvanceView,
)
    requires
        gathered_only_for(allowed, advance),
        forall|k: int|
            0 <= k < ds.len() && (#[trigger] ds[k]).state.spec_ready_for_advancing_ts() ==> allowed(
                ds[k].conn_id,
            ),
    ensures
        gathered_only_for(
            allowed,
            crate::delegate::advance_downstreams(region_id, ds, ts, blocked, conns, advance),
        ),
    decreases ds.len(),
{
    if ds.len() > 0 {
        let d = ds.first();
        let rest = ds.drop_first();
        assert forall|k: int|
            0 <= k < rest.len() && (#[trigger] rest[k]).state.spec_ready_for_advancing_ts() implies allowed(
            rest[k].conn_id,
        ) by {
            assert(rest[k] == ds[k + 1]);
        }
        if !d.state.spec_ready_for_advancing_ts() {
            lemma_advance_downstreams_only_for(
                allowed,
                region_id,
                rest,
                ts,
                blocked,
                conns,
                AdvanceView { blocked_on_scan: crate::delegate::sat_inc(advance.blocked_on_scan), ..advance },
            );
        } else {
            assert(allowed(ds[0].conn_id));
            let counted = AdvanceView {
                scan_finished: crate::delegate::sat_inc(advance.scan_finished),
                blocked_on_locks: if blocked {
                    crate::delegate::sat_inc(advance.blocked_on_locks)
                } else {
                    advance.blocked_on_locks
                },
                ..advance
            };
            match (features_of(conns, d.conn_id), ts) {
                (Some(f), Some(t)) => {
                    let region = ResolvedRegion { region_id, resolved_ts: TimeStamp(t) };
                    lemma_record_only_for(allowed, counted, f, d.conn_id, d.req_id, region);
                    lemma_advance_downstreams_only_for(
                        allowed,
                        region_id,
                        rest,
                        ts,
                        blocked,
                        conns,
                        counted.record(f, d.conn_id, d.req_id, region),
                    );
                },
                _ => {
                    lemma_advance_downstreams_only_for(
                        allowed,
                        region_id,
                        rest,
                        ts,
                        blocked,
                        conns,
                        counted,
                    );
                },
            }
        }
    }
}

proof fn lemma_gather_only_for(
    allowed: spec_fn(ConnId) -> bool,
    regions: Seq<crate::delegate::DelegateView>,
    ids: Seq<u64>,
    min_ts: TimeStamp,
    conns: Seq<ConnView>,
    advance: AdvanceView,
)
    requires
        gathered_only_for(allowed, advance),
        forall|i: int, k: int|
            0 <= i < regions.len() && 0 <= k < regions[i].downstreams.len() && ids.contains(
                regions[i].region_id,
            ) && (#[trigger] regions[i].downstreams[k]).state.spec_ready_for_advancing_ts()
                ==> allowed(regions[i].downstreams[k].conn_id),
    ensures
        gathered_only_for(allowed, crate::model::gather(regions, ids, min_ts, conns, advance).1),
    decreases ids.len(),
{
    if ids.len() > 0 {
        let rest = ids.drop_first();
        lemma_first_index(regions, crate::model::delegate_of(ids.first()));
        assert forall|id: u64| rest.contains(id) implies ids.contains(id) by {
            let j = choose|j: int| 0 <= j < rest.len() && rest[j] == id;
            assert(ids[j + 1] == id);
        }
        match region_index(regions, ids.first()) {
            Some(i) => {
                let d = regions[i];
                let moved = regions.update(i, d.advanced(min_ts));
                assert(ids[0] == d.region_id);
                assert(ids.contains(d.region_id));
                let next = d.on_min_ts(min_ts, conns, advance);
                match d.lock_tracker {
                    crate::lock::LockTrackerView::Prepared { locks, .. } => {
                        assert forall|k: int|
                            0 <= k < d.downstreams.len() && (#[trigger] d.downstreams[k]).state.spec_ready_for_advancing_ts() implies allowed(
                            d.downstreams[k].conn_id,
                        ) by {
                            assert(regions[i].downstreams[k] == d.downstreams[k]);
                        }
                        lemma_advance_downstreams_only_for(
                            allowed,
                            d.region_id,
                            d.downstreams,
                            crate::delegate::advance_to(d.resolved_ts, min_ts, locks),
                            blocked_by_lock(min_ts, locks),
                            conns,
                            advance,
                        );
                    },
                    _ => {},
                }
                assert forall|a: int, k: int|
                    0 <= a < moved.len() && 0 <= k < moved[a].downstreams.len() && rest.contains(
                        moved[a].region_id,
                    ) && (#[trigger] moved[a].downstreams[k]).state.spec_ready_for_advancing_ts() implies allowed(
                    moved[a].downstreams[k].conn_id,
                ) by {
                    assert(moved[a].downstreams == regions[a].downstreams);
                    assert(moved[a].region_id == regions[a].region_id);
                    assert(regions[a].downstreams[k] == moved[a].downstreams[k]);
                }
                lemma_gather_only_for(allowed, moved, rest, min_ts, conns, next);
            },
            None => {
                lemma_gather_only_for(allowed, regions, rest, min_ts, conns, advance);
            },
        }
    }
}

/// A resolution cycle sends only resolved timestamps, and only to
/// connections that have a subscription whose scan is done in one of the
/// regions that the cycle is for.
pub proof fn lemma_min_ts_reaches_watchers_only(s: EndpointView, ids: Seq<u64>, min_ts: TimeStamp, current_ts: TimeStamp)
    ensures
        sent_only_to(ready_watchers(s.capture_regions, ids), s.on_min_ts(ids, min_ts, current_ts).1),
{
    let allowed = ready_watchers(s.capture_regions, ids);
    let start = AdvanceView::new();
    assert(gathered_only_for(allowed, start));
    assert forall|i: int, k: int|
        0 <= i < s.capture_regions.len() && 0 <= k < s.capture_regions[i].downstreams.len() && ids.contains(
            s.capture_regions[i].region_id,
        ) && (#[trigger] s.capture_regions[i].downstreams[k]).state.spec_ready_for_advancing_ts() implies allowed(
        s.capture_regions[i].downstreams[k].conn_id,
    ) by {}
    lemma_gather_only_for(allowed, s.capture_regions, ids, min_ts, s.connections, start);
    let advance = crate::model::gather(s.capture_regions, ids, min_ts, s.connections, start).1;
    let none: Seq<EffectView> = Seq::empty();
    assert(sent_only_to(allowed, none));
    lemma_emit_groups_only_to(allowed, advance.multiplexing, s.connections, Slowest::none(), none);
    let multiplexed = emit_groups(advance.multiplexing, s.connections, Slowest::none(), none);
    lemma_emit_groups_only_to(allowed, advance.exclusive, s.connections, multiplexed.1, multiplexed.0);
    let batched = emit_groups(advance.exclusive, s.connections, multiplexed.1, multiplexed.0);
    lemma_emit_compat_only_to(allowed, advance.compat, s.connections, Slowest::none(), batched.0);
}


/// The capture state of the region, if it is captured.
pub open spec fn region_of(regions: Seq<crate::delegate::DelegateView>, region_id: u64) -> Option<
    crate::delegate::DelegateView,
> {
    match region_index(regions, region_id) {
        Some(i) => Some(regions[i]),
        None => None,
    }
}

/// Errors stay with their region. Taking a region out of the engine
/// leaves every other region as it is, and every connection's
/// subscriptions of other regions.
pub proof fn lemma_deregister_delegate_is_local(
    s: EndpointView,
    region_id: u64,
    observe_id: ObserveId,
    err: Error,
    other: u64,
    c: int,
    request_id: RequestId,
)
    requires
        crate::invariants::conns_wf(s.connections),
        other != region_id,
        0 <= c < s.connections.len(),
    ensures
        ({
            let after = s.on_deregister(Deregister::Delegate { region_id, observe_id, err }).0;
            &&& region_of(after.capture_regions, other) == region_of(s.capture_regions, other)
            &&& after.connections.len() == s.connections.len()
            &&& after.connections[c].get_downstream(request_id, other) == s.connections[c].get_downstream(
                request_id,
                other,
            )
        }),
{
    let regions = s.capture_regions;
    lemma_first_index(regions, crate::model::delegate_of(region_id));
    match region_index(regions, region_id) {
        None => {},
        Some(i) => {
            if regions[i].observe_id == observe_id {
                crate::seqs::lemma_first_index_remove(regions, crate::model::delegate_of(other), i);
                crate::consistency::lemma_get_after_unsubscribe_requests(
                    s.connections,
                    regions[i].downstreams,
                    region_id,
                    c,
                    request_id,
                    other,
                );
            }
        },
    }
}

/// Errors stay with their region. A batch of one region's commands,
/// whether it can be applied or not, leaves every other region as it is,
/// and every connection's subscriptions of other regions.
pub proof fn lemma_batch_is_local(
    s: EndpointView,
    batch: crate::batch::CmdBatchView,
    out: Seq<EffectView>,
    other: u64,
    c: int,
    request_id: RequestId,
)
    requires
        crate::invariants::conns_wf(s.connections),
        other != batch.region_id,
        0 <= c < s.connections.len(),
    ensures
        region_of(s.on_batch(batch, out).0.capture_regions, other) == region_of(
            s.capture_regions,
            other,
        ),
        s.on_batch(batch, out).0.connections.len() == s.connections.len(),
        s.on_batch(batch, out).0.connections[c].get_downstream(request_id, other) == s.connections[c].get_downstream(
            request_id,
            other,
        ),
{
    let regions = s.capture_regions;
    lemma_first_index(regions, crate::model::delegate_of(batch.region_id));
    match region_index(regions, batch.region_id) {
        None => {},
        Some(i) => {
            if !regions[i].failed {
                let step = regions[i].on_batch(batch, out);
                crate::invariants::lemma_apply_cmds_frame(regions[i], batch.cmds, out);
                match step.2 {
                    Ok(_) => {
                        crate::seqs::lemma_first_index_update(
                            regions,
                            crate::model::delegate_of(other),
                            i,
                            step.0,
                        );
                        lemma_first_index(regions, crate::model::delegate_of(other));
                    },
                    Err(e) => {
                        let failed = crate::delegate::DelegateView { failed: true, ..step.0 };
                        crate::seqs::lemma_first_index_update(
                            regions,
                            crate::model::delegate_of(other),
                            i,
                            failed,
                        );
                        lemma_first_index(regions, crate::model::delegate_of(other));
                        lemma_deregister_delegate_is_local(
                            EndpointView { capture_regions: regions.update(i, failed), ..s },
                            batch.region_id,
                            step.0.observe_id,
                            e,
                            other,
                            c,
                            request_id,
                        );
                    },
                }
            }
        },
    }
}

} // verus!
