//! The shape that the engine's tables keep: no connection and no region
//! occurs twice, no request watches a region twice, no region is
//! captured without a subscription, and no two regions are observed
//! under the same epoch.

use vstd::prelude::*;
use crate::batch::{CmdBatchView, CmdView};
use crate::conn::{ConnView, Subscription, conn_index, conn_with_id, lemma_conn_wf, subscriptions_distinct, without_request};
use crate::delegate::{DelegateView, FailedDownstream};
use crate::downstream::DownstreamView;
use crate::effect::EffectView;
use crate::error::Error;
use crate::ids::{DownstreamId, RequestId};
use crate::model::{EndpointView, delegate_of, region_index, unsubscribe_all, unsubscribe_requests};
use crate::seqs::lemma_first_index;
use crate::task::{ChangeDataRequest, Deregister, TaskView};

verus! {

/// No connection occurs twice, and no request of a connection watches a
/// region twice.
pub open spec fn conns_wf(conns: Seq<ConnView>) -> bool {
    &&& forall|i: int, j: int| 0 <= i < j < conns.len() ==> conns[i].id != conns[j].id
    &&& forall|i: int| 0 <= i < conns.len() ==> (#[trigger] conns[i]).wf()
}

/// No region occurs twice, each has a subscription, and each is observed
/// under an epoch of its own that was handed out before `next`.
pub open spec fn regions_wf(regions: Seq<DelegateView>, next: u64) -> bool {
    &&& forall|i: int, j: int|
        0 <= i < j < regions.len() ==> regions[i].region_id != regions[j].region_id
    &&& forall|i: int, j: int|
        0 <= i < j < regions.len() ==> regions[i].observe_id != regions[j].observe_id
    &&& forall|i: int|
        0 <= i < regions.len() ==> (#[trigger] regions[i]).downstreams.len() > 0 && regions[i].observe_id.0
            < next
}

impl EndpointView {
    /// The tables have their shape.
    pub open spec fn wf(self) -> bool {
        conns_wf(self.connections) && regions_wf(self.capture_regions, self.next_observe_id)
    }
}

impl TaskView {
    /// What a message has to bring: a connection that is opened has a
    /// table without doubles.
    pub open spec fn wf(self) -> bool {
        match self {
            TaskView::OpenConn { conn } => conn.wf(),
            _ => true,
        }
    }
}

/// What is left of a table without doubles when a request's entries are
/// taken out has no doubles, and holds nothing that the table did not
/// hold.
pub proof fn lemma_without_request(s: Seq<Subscription>, request_id: RequestId)
    requires
        subscriptions_distinct(s),
    ensures
        subscriptions_distinct(without_request(s, request_id)),
        forall|a: int|
            0 <= a < without_request(s, request_id).len() ==> s.contains(
                #[trigger] without_request(s, request_id)[a],
            ),
    decreases s.len(),
{
    if s.len() > 0 {
        let t = s.drop_last();
        let r = without_request(s, request_id);
        let rt = without_request(t, request_id);
        assert forall|i: int, j: int| 0 <= i < j < t.len() implies !(t[i].request_id
            == t[j].request_id && t[i].region_id == t[j].region_id) by {
            assert(t[i] == s[i] && t[j] == s[j]);
        }
        lemma_without_request(t, request_id);
        assert forall|a: int| 0 <= a < rt.len() implies s.contains(#[trigger] rt[a]) by {
            assert(t.contains(rt[a]));
            let i = choose|i: int| 0 <= i < t.len() && t[i] == rt[a];
            assert(s[i] == rt[a]);
        }
        if s.last().request_id != request_id {
            assert(s[s.len() - 1] == s.last());
            assert forall|a: int| 0 <= a < r.len() implies s.contains(#[trigger] r[a]) by {
                if a < rt.len() {
                    assert(r[a] == rt[a]);
                }
            }
            assert forall|a: int, b: int| 0 <= a < b < r.len() implies !(r[a].request_id
                == r[b].request_id && r[a].region_id == r[b].region_id) by {
                if b < rt.len() {
                    assert(r[a] == rt[a] && r[b] == rt[b]);
                } else {
                    assert(r[a] == rt[a]);
                    assert(t.contains(rt[a]));
                    let i = choose|i: int| 0 <= i < t.len() && t[i] == rt[a];
                    assert(s[i] == r[a]);
                    assert(s[s.len() - 1] == r[b]);
                }
            }
        }
    }
}

/// Taking a request's entries out of a connection keeps its tables in
/// shape.
pub proof fn lemma_unsubscribe_request_wf(c: ConnView, request_id: RequestId)
    requires
        c.wf(),
    ensures
        c.unsubscribe_request(request_id).wf(),
{
    let table = c.table_of(request_id);
    let after = without_request(table, request_id);
    lemma_without_request(table, request_id);
    assert forall|a: int| 0 <= a < after.len() implies ((#[trigger] after[a]).request_id.0 == 0) == (
    request_id.0 == 0) by {
        assert(table.contains(after[a]));
        let i = choose|i: int| 0 <= i < table.len() && table[i] == after[a];
        assert(table[i].request_id.0 == after[a].request_id.0);
    }
}

/// Taking a subscription out of every connection keeps the connections
/// in shape.
pub proof fn lemma_unsubscribe_all_wf(conns: Seq<ConnView>, request_id: RequestId, region_id: u64)
    requires
        conns_wf(conns),
    ensures
        conns_wf(unsubscribe_all(conns, request_id, region_id)),
{
    let after = unsubscribe_all(conns, request_id, region_id);
    assert forall|i: int| 0 <= i < after.len() implies (#[trigger] after[i]).wf() by {
        lemma_conn_wf(conns[i], request_id, region_id, DownstreamId(0));
    }
}

/// Taking the requests of a region's subscriptions out of every
/// connection keeps the connections in shape.
pub proof fn lemma_unsubscribe_requests_wf(conns: Seq<ConnView>, ds: Seq<DownstreamView>, region_id: u64)
    requires
        conns_wf(conns),
    ensures
        conns_wf(unsubscribe_requests(conns, ds, region_id)),
    decreases ds.len(),
{
    if ds.len() > 0 {
        lemma_unsubscribe_all_wf(conns, ds.first().req_id, region_id);
        lemma_unsubscribe_requests_wf(
            unsubscribe_all(conns, ds.first().req_id, region_id),
            ds.drop_first(),
            region_id,
        );
    }
}

/// Regions stay in shape when one of them is taken out.
pub proof fn lemma_regions_remove(regions: Seq<DelegateView>, next: u64, i: int)
    requires
        regions_wf(regions, next),
        0 <= i < regions.len(),
    ensures
        regions_wf(regions.remove(i), next),
{
    let after = regions.remove(i);
    assert forall|a: int| 0 <= a < after.len() implies #[trigger] after[a] == regions[if a < i {
        a
    } else {
        a + 1
    }] by {}
    assert forall|a: int, b: int| 0 <= a < b < after.len() implies after[a].region_id
        != after[b].region_id && after[a].observe_id != after[b].observe_id by {
        let a0 = if a < i {
            a
        } else {
            a + 1
        };
        let b0 = if b < i {
            b
        } else {
            b + 1
        };
        assert(after[a] == regions[a0] && after[b] == regions[b0]);
    }
}

/// Regions stay in shape when one of them is changed without touching
/// its id or its epoch, and keeps a subscription.
pub proof fn lemma_regions_update(regions: Seq<DelegateView>, next: u64, i: int, d: DelegateView)
    requires
        regions_wf(regions, next),
        0 <= i < regions.len(),
        d.region_id == regions[i].region_id,
        d.observe_id == regions[i].observe_id,
        d.downstreams.len() > 0,
    ensures
        regions_wf(regions.update(i, d), next),
{
    let after = regions.update(i, d);
    assert forall|a: int, b: int| 0 <= a < b < after.len() implies after[a].region_id
        != after[b].region_id && after[a].observe_id != after[b].observe_id by {
        assert(after[a].region_id == regions[a].region_id);
        assert(after[b].region_id == regions[b].region_id);
        assert(after[a].observe_id == regions[a].observe_id);
        assert(after[b].observe_id == regions[b].observe_id);
    }
}

/// Connections stay in shape when one of them is changed without
/// touching its id, and its table stays free of doubles.
pub proof fn lemma_conns_update(conns: Seq<ConnView>, c: int, conn: ConnView)
    requires
        conns_wf(conns),
        0 <= c < conns.len(),
        conn.id == conns[c].id,
        conn.wf(),
    ensures
        conns_wf(conns.update(c, conn)),
{
    let after = conns.update(c, conn);
    assert forall|a: int, b: int| 0 <= a < b < after.len() implies after[a].id != after[b].id by {
        assert(after[a].id == conns[a].id);
        assert(after[b].id == conns[b].id);
    }
}

/// Connections stay in shape when one of them is taken out.
pub proof fn lemma_conns_remove(conns: Seq<ConnView>, c: int)
    requires
        conns_wf(conns),
        0 <= c < conns.len(),
    ensures
        conns_wf(conns.remove(c)),
{
    let after = conns.remove(c);
    assert forall|a: int| 0 <= a < after.len() implies #[trigger] after[a] == conns[if a < c {
        a
    } else {
        a + 1
    }] by {}
    assert forall|a: int, b: int| 0 <= a < b < after.len() implies after[a].id != after[b].id by {
        let a0 = if a < c {
            a
        } else {
            a + 1
        };
        let b0 = if b < c {
            b
        } else {
            b + 1
        };
        assert(after[a] == conns[a0] && after[b] == conns[b0]);
    }
    assert forall|a: int| 0 <= a < after.len() implies (#[trigger] after[a]).wf() by {
        let a0 = if a < c {
            a
        } else {
            a + 1
        };
        assert(after[a] == conns[a0]);
    }
}

/// Taking a subscription out of its region keeps the tables in shape,
/// and touches neither the connections nor the epochs to come.
pub proof fn lemma_deregister_downstream_wf(
    s: EndpointView,
    region_id: u64,
    downstream_id: DownstreamId,
    err: Option<Error>,
)
    requires
        s.wf(),
    ensures
        s.deregister_downstream(region_id, downstream_id, err).0.wf(),
        s.deregister_downstream(region_id, downstream_id, err).0.connections == s.connections,
        s.deregister_downstream(region_id, downstream_id, err).0.next_observe_id
            == s.next_observe_id,
{
    lemma_first_index(s.capture_regions, delegate_of(region_id));
    match region_index(s.capture_regions, region_id) {
        None => {},
        Some(i) => {
            let step = s.capture_regions[i].unsubscribe(downstream_id, err);
            if step.0.downstreams.len() == 0 {
                lemma_regions_remove(s.capture_regions, s.next_observe_id, i);
            } else {
                lemma_regions_update(s.capture_regions, s.next_observe_id, i, step.0);
            }
        },
    }
}

/// Taking subscriptions out of their regions, one after the other, keeps
/// the tables in shape.
pub proof fn lemma_deregister_downstreams_wf(
    s: EndpointView,
    subs: Seq<(u64, DownstreamId)>,
    err: Option<Error>,
    out: Seq<EffectView>,
)
    requires
        s.wf(),
    ensures
        s.deregister_downstreams(subs, err, out).0.wf(),
        s.deregister_downstreams(subs, err, out).0.connections == s.connections,
        s.deregister_downstreams(subs, err, out).0.next_observe_id == s.next_observe_id,
    decreases subs.len(),
{
    if subs.len() > 0 {
        lemma_deregister_downstream_wf(s, subs.first().0, subs.first().1, err);
        let step = s.deregister_downstream(subs.first().0, subs.first().1, err);
        lemma_deregister_downstreams_wf(step.0, subs.drop_first(), err, out + step.1);
    }
}

/// A deregistration keeps the tables in shape.
pub proof fn lemma_on_deregister_wf(s: EndpointView, deregister: Deregister)
    requires
        s.wf(),
    ensures
        s.on_deregister(deregister).0.wf(),
        s.on_deregister(deregister).0.next_observe_id == s.next_observe_id,
{
    match deregister {
        Deregister::Conn(conn_id) => {
            lemma_first_index(s.connections, conn_with_id(conn_id));
            match conn_index(s.connections, conn_id) {
                None => {},
                Some(c) => {
                    lemma_conns_remove(s.connections, c);
                    lemma_deregister_downstreams_wf(
                        EndpointView { connections: s.connections.remove(c), ..s },
                        crate::conn::targets(s.connections[c].downstreams()),
                        None,
                        Seq::empty(),
                    );
                },
            }
        },
        Deregister::Request { conn_id, request_id } => {
            lemma_first_index(s.connections, conn_with_id(conn_id));
            match conn_index(s.connections, conn_id) {
                None => {},
                Some(c) => {
                    lemma_unsubscribe_request_wf(s.connections[c], request_id);
                    lemma_conns_update(
                        s.connections,
                        c,
                        s.connections[c].unsubscribe_request(request_id),
                    );
                    lemma_deregister_downstreams_wf(
                        EndpointView {
                            connections: s.connections.update(
                                c,
                                s.connections[c].unsubscribe_request(request_id),
                            ),
                            ..s
                        },
                        s.connections[c].of_request(request_id),
                        Some(Error::Other),
                        Seq::empty(),
                    );
                },
            }
        },
        Deregister::Region { conn_id, request_id, region_id } => {
            lemma_first_index(s.connections, conn_with_id(conn_id));
            match conn_index(s.connections, conn_id) {
                None => {},
                Some(c) => {
                    lemma_conn_wf(s.connections[c], request_id, region_id, DownstreamId(0));
                    match s.connections[c].get_downstream(request_id, region_id) {
                        None => {},
                        Some(id) => {
                            lemma_conns_update(
                                s.connections,
                                c,
                                s.connections[c].unsubscribe(request_id, region_id),
                            );
                            lemma_deregister_downstream_wf(
                                EndpointView {
                                    connections: s.connections.update(
                                        c,
                                        s.connections[c].unsubscribe(request_id, region_id),
                                    ),
                                    ..s
                                },
                                region_id,
                                id,
                                Some(Error::Other),
                            );
                        },
                    }
                },
            }
        },
        Deregister::Downstream { conn_id, request_id, region_id, downstream_id, err } => {
            lemma_first_index(s.connections, conn_with_id(conn_id));
            match conn_index(s.connections, conn_id) {
                None => {},
                Some(c) => {
                    lemma_conn_wf(s.connections[c], request_id, region_id, DownstreamId(0));
                    if s.connections[c].get_downstream(request_id, region_id) == Some(
                        downstream_id,
                    ) {
                        lemma_conns_update(
                            s.connections,
                            c,
                            s.connections[c].unsubscribe(request_id, region_id),
                        );
                        lemma_deregister_downstream_wf(
                            EndpointView {
                                connections: s.connections.update(
                                    c,
                                    s.connections[c].unsubscribe(request_id, region_id),
                                ),
                                ..s
                            },
                            region_id,
                            downstream_id,
                            err,
                        );
                    }
                },
            }
        },
        Deregister::Delegate { region_id, observe_id, err } => {
            lemma_first_index(s.capture_regions, delegate_of(region_id));
            match region_index(s.capture_regions, region_id) {
                None => {},
                Some(i) => {
                    if s.capture_regions[i].observe_id == observe_id {
                        lemma_regions_remove(s.capture_regions, s.next_observe_id, i);
                        lemma_unsubscribe_requests_wf(
                            s.connections,
                            s.capture_regions[i].downstreams,
                            region_id,
                        );
                    }
                },
            }
        },
    }
}

/// Commands change nothing of a region but its lock table.
pub proof fn lemma_apply_cmds_frame(d: DelegateView, cmds: Seq<CmdView>, out: Seq<EffectView>)
    ensures
        d.apply_cmds(cmds, out).0 == (DelegateView {
            lock_tracker: d.apply_cmds(cmds, out).0.lock_tracker,
            ..d
        }),
    decreases cmds.len(),
{
    if cmds.len() > 0 {
        let step = d.apply_cmd(cmds.first(), out);
        if step.2 is Ok {
            lemma_apply_cmds_frame(step.0, cmds.drop_first(), step.1);
        }
    }
}

/// A batch keeps the tables in shape.
pub proof fn lemma_on_batch_wf(s: EndpointView, batch: CmdBatchView, out: Seq<EffectView>)
    requires
        s.wf(),
    ensures
        s.on_batch(batch, out).0.wf(),
        s.on_batch(batch, out).0.next_observe_id == s.next_observe_id,
{
    lemma_first_index(s.capture_regions, delegate_of(batch.region_id));
    match region_index(s.capture_regions, batch.region_id) {
        None => {},
        Some(i) => {
            if !s.capture_regions[i].failed {
                let step = s.capture_regions[i].on_batch(batch, out);
                lemma_apply_cmds_frame(s.capture_regions[i], batch.cmds, out);
                match step.2 {
                    Ok(_) => {
                        lemma_regions_update(s.capture_regions, s.next_observe_id, i, step.0);
                    },
                    Err(e) => {
                        let failed = DelegateView { failed: true, ..step.0 };
                        lemma_regions_update(s.capture_regions, s.next_observe_id, i, failed);
                        lemma_on_deregister_wf(
                            EndpointView {
                                capture_regions: s.capture_regions.update(i, failed),
                                ..s
                            },
                            Deregister::Delegate {
                                region_id: batch.region_id,
                                observe_id: step.0.observe_id,
                                err: e,
                            },
                        );
                    },
                }
            }
        },
    }
}

/// Batches keep the tables in shape.
pub proof fn lemma_on_batches_wf(s: EndpointView, multi: Seq<CmdBatchView>, out: Seq<EffectView>)
    requires
        s.wf(),
    ensures
        s.on_batches(multi, out).0.wf(),
    decreases multi.len(),
{
    if multi.len() > 0 {
        lemma_on_batch_wf(s, multi.first(), out);
        let step = s.on_batch(multi.first(), out);
        lemma_on_batches_wf(step.0, multi.drop_first(), step.1);
    }
}

/// Taking failed subscriptions out keeps the tables in shape.
pub proof fn lemma_deregister_failed_wf(
    s: EndpointView,
    region_id: u64,
    failed: Seq<FailedDownstream>,
    out: Seq<EffectView>,
)
    requires
        s.wf(),
    ensures
        s.deregister_failed(region_id, failed, out).0.wf(),
    decreases failed.len(),
{
    if failed.len() > 0 {
        let f = failed.first();
        let d = Deregister::Downstream {
            conn_id: f.conn_id,
            request_id: f.req_id,
            region_id,
            downstream_id: f.downstream_id,
            err: Some(f.err),
        };
        lemma_on_deregister_wf(s, d);
        let step = s.on_deregister(d);
        lemma_deregister_failed_wf(step.0, region_id, failed.drop_first(), out + step.1);
    }
}

/// A registration keeps the tables in shape.
pub proof fn lemma_on_register_wf(s: EndpointView, request: ChangeDataRequest, downstream: DownstreamView)
    requires
        s.wf(),
    ensures
        s.on_register(request, downstream).0.wf(),
{
    lemma_first_index(s.connections, conn_with_id(downstream.conn_id));
    lemma_first_index(s.capture_regions, delegate_of(request.region_id));
    match conn_index(s.connections, downstream.conn_id) {
        None => {},
        Some(c) => {
            if s.refusal(s.connections[c], request, downstream) is None {
                let request_id = RequestId(request.request_id);
                lemma_conn_wf(s.connections[c], request_id, request.region_id, downstream.id);
                lemma_conns_update(
                    s.connections,
                    c,
                    s.connections[c].subscribe(request_id, request.region_id, downstream.id),
                );
                let started = DownstreamView {
                    state: downstream.state.spec_start_scan(),
                    ..downstream
                };
                match region_index(s.capture_regions, request.region_id) {
                    Some(i) => {
                        lemma_regions_update(
                            s.capture_regions,
                            s.next_observe_id,
                            i,
                            s.capture_regions[i].subscribe(started),
                        );
                    },
                    None => {
                        let fresh = DelegateView::new(
                            request.region_id,
                            crate::ids::ObserveId(s.next_observe_id),
                        ).subscribe(started);
                        let after = s.capture_regions.push(fresh);
                        assert(fresh.downstreams.len() == 1);
                        assert forall|a: int, b: int| 0 <= a < b < after.len() implies after[a].region_id
                            != after[b].region_id && after[a].observe_id != after[b].observe_id by {
                            assert(after[a] == s.capture_regions[a]);
                            if b < s.capture_regions.len() {
                                assert(after[b] == s.capture_regions[b]);
                            } else {
                                assert(!delegate_of(request.region_id)(s.capture_regions[a]));
                            }
                        }
                        assert forall|a: int| 0 <= a < after.len() implies (#[trigger] after[a]).downstreams.len()
                            > 0 && after[a].observe_id.0 < s.next_observe_id + 1 by {
                            if a < s.capture_regions.len() {
                                assert(after[a] == s.capture_regions[a]);
                            }
                        }
                    },
                }
            }
        },
    }
}

/// A resolution cycle keeps the regions in shape.
pub proof fn lemma_gather_wf(
    regions: Seq<DelegateView>,
    next: u64,
    ids: Seq<u64>,
    min_ts: crate::timestamp::TimeStamp,
    conns: Seq<ConnView>,
    advance: crate::advance::AdvanceView,
)
    requires
        regions_wf(regions, next),
    ensures
        regions_wf(crate::model::gather(regions, ids, min_ts, conns, advance).0, next),
    decreases ids.len(),
{
    if ids.len() > 0 {
        lemma_first_index(regions, delegate_of(ids.first()));
        match region_index(regions, ids.first()) {
            Some(i) => {
                lemma_regions_update(regions, next, i, regions[i].advanced(min_ts));
                lemma_gather_wf(
                    regions.update(i, regions[i].advanced(min_ts)),
                    next,
                    ids.drop_first(),
                    min_ts,
                    conns,
                    regions[i].on_min_ts(min_ts, conns, advance),
                );
            },
            None => {
                lemma_gather_wf(regions, next, ids.drop_first(), min_ts, conns, advance);
            },
        }
    }
}

/// Every message keeps the tables in shape.
pub proof fn lemma_run_wf(s: EndpointView, task: TaskView)
    requires
        s.wf(),
        task.wf(),
    ensures
        s.run(task).0.wf(),
{
    match task {
        TaskView::Register { request, downstream } => {
            lemma_on_register_wf(s, request, downstream);
        },
        TaskView::Deregister(deregister) => {
            lemma_on_deregister_wf(s, deregister);
        },
        TaskView::OpenConn { conn } => {
            lemma_first_index(s.connections, conn_with_id(conn.id));
            match conn_index(s.connections, conn.id) {
                Some(c) => {
                    lemma_conns_update(s.connections, c, conn);
                },
                None => {
                    let after = s.connections.push(conn);
                    assert forall|a: int, b: int| 0 <= a < b < after.len() implies after[a].id
                        != after[b].id by {
                        assert(after[a] == s.connections[a]);
                        if b < s.connections.len() {
                            assert(after[b] == s.connections[b]);
                        } else {
                            assert(!conn_with_id(conn.id)(s.connections[a]));
                        }
                    }
                    assert forall|a: int| 0 <= a < after.len() implies (#[trigger] after[a]).wf() by {
                        if a < s.connections.len() {
                            assert(after[a] == s.connections[a]);
                        }
                    }
                },
            }
        },
        TaskView::SetConnVersion { conn_id, version, explicit_features } => {
            lemma_first_index(s.connections, conn_with_id(conn_id));
            match conn_index(s.connections, conn_id) {
                Some(c) => {
                    lemma_conns_update(
                        s.connections,
                        c,
                        s.connections[c].check_version_and_set_feature(version, explicit_features),
                    );
                },
                None => {},
            }
        },
        TaskView::MultiBatch { multi } => {
            lemma_on_batches_wf(
                EndpointView {
                    sink_memory_quota: s.sink_memory_quota.spec_free(
                        crate::model::total_size(multi, 0),
                    ),
                    ..s
                },
                multi,
                Seq::empty(),
            );
        },
        TaskView::MinTs { regions, min_ts, .. } => {
            lemma_gather_wf(
                s.capture_regions,
                s.next_observe_id,
                regions,
                min_ts,
                s.connections,
                crate::advance::AdvanceView::new(),
            );
        },
        TaskView::FinishScanLocks { observe_id, region, locks } => {
            lemma_first_index(s.capture_regions, delegate_of(region.id));
            match region_index(s.capture_regions, region.id) {
                None => {},
                Some(i) => {
                    if s.capture_regions[i].observe_id == observe_id {
                        match s.capture_regions[i].finish_scan_locks(region.region_epoch, locks) {
                            Ok(d) => {
                                lemma_regions_update(s.capture_regions, s.next_observe_id, i, d);
                                lemma_deregister_failed_wf(
                                    EndpointView {
                                        capture_regions: s.capture_regions.update(i, d),
                                        ..s
                                    },
                                    region.id,
                                    s.capture_regions[i].failed_on_finish(region.region_epoch),
                                    Seq::empty(),
                                );
                            },
                            Err(e) => {
                                lemma_on_deregister_wf(
                                    s,
                                    Deregister::Delegate { region_id: region.id, observe_id, err: e },
                                );
                            },
                        }
                    }
                },
            }
        },
        TaskView::RegisterMinTsEvent { .. } => {},
        TaskView::InitDownstream { region_id, observe_id, downstream_id } => {
            lemma_first_index(s.capture_regions, delegate_of(region_id));
            match region_index(s.capture_regions, region_id) {
                None => {},
                Some(i) => {
                    if s.capture_regions[i].observe_id == observe_id {
                        let after = s.on_init_downstream(region_id, observe_id, downstream_id).0;
                        lemma_first_index(
                            s.capture_regions[i].downstreams,
                            crate::delegate::downstream_with_id(downstream_id),
                        );
                        lemma_regions_update(
                            s.capture_regions,
                            s.next_observe_id,
                            i,
                            after.capture_regions[i],
                        );
                    }
                },
            }
        },
        TaskView::TxnExtra { .. } => {},
        TaskView::Validate(..) => {},
        TaskView::ChangeConfig(..) => {},
    }
}

} // verus!
