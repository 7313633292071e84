//! The two tables of subscriptions, that of the connections and that of
//! the regions, say the same: whatever a connection has subscribed is
//! captured by its region, and the other way round.

use vstd::prelude::*;
use crate::conn::{ConnView, Subscription, of_request, subscriptions_distinct, targets, without_request};
use crate::delegate::{DelegateView, downstream_with_id};
use crate::downstream::DownstreamView;
use crate::error::Error;
use crate::effect::EffectView;
use crate::ids::{ConnId, DownstreamId, RequestId};
use crate::model::{EndpointView, delegate_of, region_index, unsubscribe_all, unsubscribe_requests};
use crate::task::TaskView;
use crate::seqs::{first_index, is_first, lemma_first_index, lemma_first_index_absent, lemma_first_index_found};

verus! {

/// One subscription, as both tables know it.
pub struct Link {
    pub conn_id: ConnId,
    pub request_id: RequestId,
    pub region_id: u64,
    pub downstream_id: DownstreamId,
}

/// The subscription that `table` holds for the region under the request,
/// if it holds one.
pub open spec fn lookup(table: Seq<Subscription>, request_id: RequestId, region_id: u64) -> Option<
    DownstreamId,
> {
    match first_index(table, ConnView::matcher(request_id, region_id)) {
        Some(i) => Some(table[i].downstream_id),
        None => None,
    }
}

/// A table with one more entry at its end holds what it held, and the
/// new entry where it held nothing for the entry's request and region.
pub proof fn lemma_lookup_push(table: Seq<Subscription>, x: Subscription, request_id: RequestId, region_id: u64)
    ensures
        lookup(table.push(x), request_id, region_id) == match lookup(table, request_id, region_id) {
            Some(d) => Some(d),
            None => if x.request_id == request_id && x.region_id == region_id {
                Some(x.downstream_id)
            } else {
                None
            },
        },
{
    let p = ConnView::matcher(request_id, region_id);
    let t = table.push(x);
    lemma_first_index(table, p);
    match first_index(table, p) {
        Some(i) => {
            assert(is_first(t, p, i)) by {
                assert forall|j: int| 0 <= j < i implies !p(#[trigger] t[j]) by {
                    assert(t[j] == table[j]);
                }
                assert(t[i] == table[i]);
            }
            lemma_first_index_found(t, p, i);
        },
        None => {
            if p(x) {
                assert(is_first(t, p, table.len() as int)) by {
                    assert forall|j: int| 0 <= j < table.len() implies !p(#[trigger] t[j]) by {
                        assert(t[j] == table[j]);
                    }
                }
                lemma_first_index_found(t, p, table.len() as int);
            } else {
                assert forall|j: int| 0 <= j < t.len() implies !p(#[trigger] t[j]) by {
                    if j < table.len() {
                        assert(t[j] == table[j]);
                    }
                }
                lemma_first_index_absent(t, p);
            }
        },
    }
}

/// A table without doubles, with one entry taken out, holds what it held
/// but for that entry's request and region.
pub proof fn lemma_lookup_remove(table: Seq<Subscription>, i: int, request_id: RequestId, region_id: u64)
    requires
        subscriptions_distinct(table),
        0 <= i < table.len(),
    ensures
        lookup(table.remove(i), request_id, region_id) == if table[i].request_id == request_id
            && table[i].region_id == region_id {
            None
        } else {
            lookup(table, request_id, region_id)
        },
{
    let p = ConnView::matcher(request_id, region_id);
    let t = table.remove(i);
    lemma_first_index(table, p);
    assert forall|j: int| 0 <= j < t.len() implies #[trigger] t[j] == table[if j < i {
        j
    } else {
        j + 1
    }] by {}
    if p(table[i]) {
        assert forall|j: int| 0 <= j < t.len() implies !p(#[trigger] t[j]) by {
            let j0 = if j < i {
                j
            } else {
                j + 1
            };
            assert(t[j] == table[j0]);
            if j0 < i {
                assert(!(table[j0].request_id == table[i].request_id && table[j0].region_id
                    == table[i].region_id));
            } else {
                assert(!(table[i].request_id == table[j0].request_id && table[i].region_id
                    == table[j0].region_id));
            }
        }
        lemma_first_index_absent(t, p);
    } else {
        match first_index(table, p) {
            Some(k) => {
                let k1 = if k < i {
                    k
                } else {
                    k - 1
                };
                assert(is_first(t, p, k1)) by {
                    assert(t[k1] == table[k]);
                    assert forall|j: int| 0 <= j < k1 implies !p(#[trigger] t[j]) by {
                        let j0 = if j < i {
                            j
                        } else {
                            j + 1
                        };
                        assert(t[j] == table[j0]);
                        assert(!p(table[j0]));
                    }
                }
                lemma_first_index_found(t, p, k1);
            },
            None => {
                assert forall|j: int| 0 <= j < t.len() implies !p(#[trigger] t[j]) by {
                    let j0 = if j < i {
                        j
                    } else {
                        j + 1
                    };
                    assert(t[j] == table[j0]);
                    assert(!p(table[j0]));
                }
                lemma_first_index_absent(t, p);
            },
        }
    }
}

/// A table with the entries of one request taken out holds what it held
/// for the other requests, and nothing for that one.
pub proof fn lemma_lookup_without_request(
    table: Seq<Subscription>,
    gone: RequestId,
    request_id: RequestId,
    region_id: u64,
)
    ensures
        lookup(without_request(table, gone), request_id, region_id) == if request_id == gone {
            None
        } else {
            lookup(table, request_id, region_id)
        },
    decreases table.len(),
{
    let p = ConnView::matcher(request_id, region_id);
    if table.len() == 0 {
        lemma_first_index_absent(table, p);
        lemma_first_index_absent(without_request(table, gone), p);
    } else {
        let t0 = table.drop_last();
        let x = table.last();
        assert(table =~= t0.push(x));
        lemma_lookup_without_request(t0, gone, request_id, region_id);
        lemma_lookup_push(t0, x, request_id, region_id);
        if x.request_id != gone {
            lemma_lookup_push(without_request(t0, gone), x, request_id, region_id);
        }
    }
}

/// What a request's entries are listed as: the regions and subscriptions
/// of exactly those entries.
pub proof fn lemma_of_request(table: Seq<Subscription>, request_id: RequestId, region_id: u64, id: DownstreamId)
    ensures
        of_request(table, request_id).contains((region_id, id)) <==> exists|j: int|
            0 <= j < table.len() && #[trigger] table[j] == (Subscription {
                request_id,
                region_id,
                downstream_id: id,
            }),
    decreases table.len(),
{
    let want = Subscription { request_id, region_id, downstream_id: id };
    let listed = of_request(table, request_id);
    if table.len() > 0 {
        let t0 = table.drop_last();
        let x = table.last();
        lemma_of_request(t0, request_id, region_id, id);
        let l0 = of_request(t0, request_id);
        if listed.contains((region_id, id)) {
            let a = choose|a: int| 0 <= a < listed.len() && listed[a] == (region_id, id);
            if x.request_id == request_id && a == l0.len() {
                assert(table[table.len() - 1] == want);
            } else {
                assert(l0[a] == (region_id, id));
                assert(l0.contains((region_id, id)));
                let j = choose|j: int| 0 <= j < t0.len() && #[trigger] t0[j] == want;
                assert(table[j] == want);
            }
        }
        if exists|j: int| 0 <= j < table.len() && #[trigger] table[j] == want {
            let j = choose|j: int| 0 <= j < table.len() && #[trigger] table[j] == want;
            if j < t0.len() {
                assert(t0[j] == want);
                assert(l0.contains((region_id, id)));
                let a = choose|a: int| 0 <= a < l0.len() && l0[a] == (region_id, id);
                assert(listed[a] == (region_id, id));
            } else {
                assert(listed[l0.len() as int] == (region_id, id));
            }
        }
    }
}

/// An entry that a table without doubles holds is the one that is found
/// for its request and region.
pub proof fn lemma_lookup_entry(table: Seq<Subscription>, j: int)
    requires
        subscriptions_distinct(table),
        0 <= j < table.len(),
    ensures
        lookup(table, table[j].request_id, table[j].region_id) == Some(table[j].downstream_id),
{
    let p = ConnView::matcher(table[j].request_id, table[j].region_id);
    lemma_first_index(table, p);
    match first_index(table, p) {
        Some(i) => {
            if i < j {
                assert(!(table[i].request_id == table[j].request_id && table[i].region_id
                    == table[j].region_id));
            }
        },
        None => {
            assert(!p(table[j]));
        },
    }
}

/// What is found in a table is an entry of it.
pub proof fn lemma_lookup_found(table: Seq<Subscription>, request_id: RequestId, region_id: u64)
    ensures
        match lookup(table, request_id, region_id) {
            Some(id) => exists|j: int|
                0 <= j < table.len() && #[trigger] table[j] == (Subscription {
                    request_id,
                    region_id,
                    downstream_id: id,
                }),
            None => forall|j: int|
                0 <= j < table.len() ==> !((#[trigger] table[j]).request_id == request_id
                    && table[j].region_id == region_id),
        },
{
    let p = ConnView::matcher(request_id, region_id);
    lemma_first_index(table, p);
    match first_index(table, p) {
        Some(i) => {
            assert(table[i] == (Subscription {
                request_id,
                region_id,
                downstream_id: table[i].downstream_id,
            }));
        },
        None => {
            assert forall|j: int| 0 <= j < table.len() implies !((#[trigger] table[j]).request_id
                == request_id && table[j].region_id == region_id) by {
                assert(!p(table[j]));
            }
        },
    }
}


/// After a subscription has been entered, a connection holds what it
/// held, and the new subscription where it held none for the request and
/// the region.
pub proof fn lemma_get_after_subscribe(
    c: ConnView,
    request_id: RequestId,
    region_id: u64,
    id: DownstreamId,
    other_request: RequestId,
    other_region: u64,
)
    ensures
        c.subscribe(request_id, region_id, id).get_downstream(other_request, other_region) == if c.get_downstream(
            request_id,
            region_id,
        ) is None && other_request == request_id && other_region == region_id {
            Some(id)
        } else {
            c.get_downstream(other_request, other_region)
        },
        c.subscribe(request_id, region_id, id).id == c.id,
{
    if c.get_downstream(request_id, region_id) is None {
        let table = c.table_of(request_id);
        let x = Subscription { request_id, region_id, downstream_id: id };
        assert(c.subscribe(request_id, region_id, id).table_of(request_id) == table.push(x));
        if (other_request.0 == 0) == (request_id.0 == 0) {
            lemma_lookup_push(table, x, other_request, other_region);
        }
    }
}

/// After a subscription has been taken out, a connection holds what it
/// held but for the request and the region.
pub proof fn lemma_get_after_unsubscribe(
    c: ConnView,
    request_id: RequestId,
    region_id: u64,
    other_request: RequestId,
    other_region: u64,
)
    requires
        c.wf(),
    ensures
        c.unsubscribe(request_id, region_id).get_downstream(other_request, other_region) == if other_request
            == request_id && other_region == region_id {
            None
        } else {
            c.get_downstream(other_request, other_region)
        },
        c.unsubscribe(request_id, region_id).id == c.id,
{
    let table = c.table_of(request_id);
    let p = ConnView::matcher(request_id, region_id);
    lemma_first_index(table, p);
    match c.index_of(request_id, region_id) {
        Some(i) => {
            assert(c.unsubscribe(request_id, region_id).table_of(request_id) == table.remove(i));
            if (other_request.0 == 0) == (request_id.0 == 0) {
                lemma_lookup_remove(table, i, other_request, other_region);
            }
        },
        None => {},
    }
}

/// After a request has been taken out, a connection holds what it held
/// for the other requests.
pub proof fn lemma_get_after_unsubscribe_request(
    c: ConnView,
    request_id: RequestId,
    other_request: RequestId,
    other_region: u64,
)
    ensures
        c.unsubscribe_request(request_id).get_downstream(other_request, other_region) == if other_request
            == request_id {
            None
        } else {
            c.get_downstream(other_request, other_region)
        },
        c.unsubscribe_request(request_id).id == c.id,
{
    let table = c.table_of(request_id);
    assert(c.unsubscribe_request(request_id).table_of(request_id) == without_request(
        table,
        request_id,
    ));
    if (other_request.0 == 0) == (request_id.0 == 0) {
        lemma_lookup_without_request(table, request_id, other_request, other_region);
    }
}

/// The subscription of a region's capture state at place `k`, as a link.
pub open spec fn link_of(d: DelegateView, k: int) -> Link {
    Link {
        conn_id: d.downstreams[k].conn_id,
        request_id: d.downstreams[k].req_id,
        region_id: d.region_id,
        downstream_id: d.downstreams[k].id,
    }
}

/// The region captures the subscription.
pub open spec fn captures(d: DelegateView, l: Link) -> bool {
    exists|k: int| 0 <= k < d.downstreams.len() && #[trigger] link_of(d, k) == l
}

/// One of the regions captures the subscription.
pub open spec fn captured(regions: Seq<DelegateView>, l: Link) -> bool {
    exists|i: int| 0 <= i < regions.len() && captures(#[trigger] regions[i], l)
}

/// The connection has the subscription.
pub open spec fn subscribes(c: ConnView, l: Link) -> bool {
    c.id == l.conn_id && c.get_downstream(l.request_id, l.region_id) == Some(l.downstream_id)
}

/// One of the connections has the subscription.
pub open spec fn subscribed(conns: Seq<ConnView>, l: Link) -> bool {
    exists|c: int| 0 <= c < conns.len() && subscribes(#[trigger] conns[c], l)
}

/// No two subscriptions of the region have the same id.
pub open spec fn ids_distinct(d: DelegateView) -> bool {
    forall|a: int, b: int|
        0 <= a < b < d.downstreams.len() ==> d.downstreams[a].id != d.downstreams[b].id
}

/// In no region two subscriptions have the same id.
pub open spec fn all_ids_distinct(regions: Seq<DelegateView>) -> bool {
    forall|i: int| 0 <= i < regions.len() ==> ids_distinct(#[trigger] regions[i])
}

/// Two states of a region that hold the same subscriptions capture the
/// same.
pub proof fn lemma_captures_same(d: DelegateView, e: DelegateView, l: Link)
    requires
        d.region_id == e.region_id,
        d.downstreams.len() == e.downstreams.len(),
        forall|k: int| 0 <= k < d.downstreams.len() ==> #[trigger] link_of(d, k) == link_of(e, k),
    ensures
        captures(d, l) == captures(e, l),
        ids_distinct(d) == ids_distinct(e),
{
    if captures(d, l) {
        let k = choose|k: int| 0 <= k < d.downstreams.len() && #[trigger] link_of(d, k) == l;
        assert(link_of(e, k) == l);
    }
    if captures(e, l) {
        let k = choose|k: int| 0 <= k < e.downstreams.len() && #[trigger] link_of(e, k) == l;
        assert(link_of(d, k) == link_of(e, k));
    }
    if ids_distinct(d) {
        assert forall|a: int, b: int| 0 <= a < b < e.downstreams.len() implies e.downstreams[a].id
            != e.downstreams[b].id by {
            assert(link_of(d, a) == link_of(e, a));
            assert(link_of(d, b) == link_of(e, b));
        }
    }
    if ids_distinct(e) {
        assert forall|a: int, b: int| 0 <= a < b < d.downstreams.len() implies d.downstreams[a].id
            != d.downstreams[b].id by {
            assert(link_of(d, a) == link_of(e, a));
            assert(link_of(d, b) == link_of(e, b));
        }
    }
}

/// A region that takes a subscription captures it, beside what it
/// captured.
pub proof fn lemma_captures_after_subscribe(d: DelegateView, x: DownstreamView, l: Link)
    requires
        d.refusal(x) is None,
    ensures
        captures(d.subscribe(x), l) <==> captures(d, l) || l == (Link {
            conn_id: x.conn_id,
            request_id: x.req_id,
            region_id: d.region_id,
            downstream_id: x.id,
        }),
        ids_distinct(d) && d.index_of(x.id) is None ==> ids_distinct(d.subscribe(x)),
{
    let e = d.subscribe(x);
    let n = d.downstreams.len() as int;
    assert forall|k: int| 0 <= k < n implies #[trigger] link_of(e, k) == link_of(d, k) by {
        assert(e.downstreams[k] == d.downstreams[k]);
    }
    if captures(e, l) {
        let k = choose|k: int| 0 <= k < e.downstreams.len() && #[trigger] link_of(e, k) == l;
        if k < n {
            assert(link_of(d, k) == l);
        }
    }
    if captures(d, l) {
        let k = choose|k: int| 0 <= k < d.downstreams.len() && #[trigger] link_of(d, k) == l;
        assert(link_of(e, k) == l);
    }
    assert(link_of(e, n) == (Link {
        conn_id: x.conn_id,
        request_id: x.req_id,
        region_id: d.region_id,
        downstream_id: x.id,
    }));
    if ids_distinct(d) && d.index_of(x.id) is None {
        lemma_first_index(d.downstreams, downstream_with_id(x.id));
        assert forall|a: int, b: int| 0 <= a < b < e.downstreams.len() implies e.downstreams[a].id
            != e.downstreams[b].id by {
            assert(e.downstreams[a] == d.downstreams[a]);
            if b < n {
                assert(e.downstreams[b] == d.downstreams[b]);
            } else {
                assert(!downstream_with_id(x.id)(d.downstreams[a]));
            }
        }
    }
}

/// A region that lets a subscription go captures what it captured but
/// for the subscription with that id.
pub proof fn lemma_captures_after_unsubscribe(d: DelegateView, id: DownstreamId, err: Option<Error>, l: Link)
    requires
        ids_distinct(d),
    ensures
        captures(d.unsubscribe(id, err).0, l) <==> captures(d, l) && l.downstream_id != id,
        ids_distinct(d.unsubscribe(id, err).0),
        d.unsubscribe(id, err).0.region_id == d.region_id,
        d.unsubscribe(id, err).0.observe_id == d.observe_id,
{
    let e = d.unsubscribe(id, err).0;
    let p = downstream_with_id(id);
    lemma_first_index(d.downstreams, p);
    match d.index_of(id) {
        Some(i) => {
            assert forall|k: int| 0 <= k < e.downstreams.len() implies #[trigger] link_of(e, k)
                == link_of(
                d,
                if k < i {
                    k
                } else {
                    k + 1
                },
            ) by {}
            if captures(e, l) {
                let k = choose|k: int| 0 <= k < e.downstreams.len() && #[trigger] link_of(e, k) == l;
                let k0 = if k < i {
                    k
                } else {
                    k + 1
                };
                assert(link_of(d, k0) == l);
                if k0 < i {
                    assert(d.downstreams[k0].id != d.downstreams[i].id);
                } else {
                    assert(d.downstreams[i].id != d.downstreams[k0].id);
                }
            }
            if captures(d, l) && l.downstream_id != id {
                let k = choose|k: int| 0 <= k < d.downstreams.len() && #[trigger] link_of(d, k) == l;
                let k1 = if k < i {
                    k
                } else {
                    k - 1
                };
                assert(link_of(e, k1) == l);
            }
            assert forall|a: int, b: int| 0 <= a < b < e.downstreams.len() implies e.downstreams[a].id
                != e.downstreams[b].id by {
                let a0 = if a < i {
                    a
                } else {
                    a + 1
                };
                let b0 = if b < i {
                    b
                } else {
                    b + 1
                };
                assert(e.downstreams[a] == d.downstreams[a0] && e.downstreams[b] == d.downstreams[b0]);
            }
        },
        None => {
            if captures(d, l) {
                let k = choose|k: int| 0 <= k < d.downstreams.len() && #[trigger] link_of(d, k) == l;
                assert(!p(d.downstreams[k]));
            }
        },
    }
}

/// What regions capture that do not occur twice, when one of them is
/// taken out: what they captured, but for that region.
pub proof fn lemma_captured_after_remove(regions: Seq<DelegateView>, i: int, l: Link)
    requires
        0 <= i < regions.len(),
        forall|a: int, b: int|
            0 <= a < b < regions.len() ==> regions[a].region_id != regions[b].region_id,
    ensures
        captured(regions.remove(i), l) <==> captured(regions, l) && l.region_id
            != regions[i].region_id,
        all_ids_distinct(regions) ==> all_ids_distinct(regions.remove(i)),
{
    let after = regions.remove(i);
    assert forall|a: int| 0 <= a < after.len() implies #[trigger] after[a] == regions[if a < i {
        a
    } else {
        a + 1
    }] by {}
    if captured(after, l) {
        let a = choose|a: int| 0 <= a < after.len() && captures(#[trigger] after[a], l);
        let a0 = if a < i {
            a
        } else {
            a + 1
        };
        assert(after[a] == regions[a0]);
        assert(captures(regions[a0], l));
        let k = choose|k: int| 0 <= k < regions[a0].downstreams.len() && #[trigger] link_of(regions[a0], k) == l;
        if a0 < i {
            assert(regions[a0].region_id != regions[i].region_id);
        } else {
            assert(regions[i].region_id != regions[a0].region_id);
        }
    }
    if captured(regions, l) && l.region_id != regions[i].region_id {
        let a = choose|a: int| 0 <= a < regions.len() && captures(#[trigger] regions[a], l);
        let k = choose|k: int| 0 <= k < regions[a].downstreams.len() && #[trigger] link_of(regions[a], k) == l;
        let a1 = if a < i {
            a
        } else {
            a - 1
        };
        assert(after[a1] == regions[a]);
        assert(captures(after[a1], l));
    }
    if all_ids_distinct(regions) {
        assert forall|a: int| 0 <= a < after.len() implies ids_distinct(#[trigger] after[a]) by {
            let a0 = if a < i {
                a
            } else {
                a + 1
            };
            assert(after[a] == regions[a0]);
            assert(ids_distinct(regions[a0]));
        }
    }
}

/// What regions capture when one of them is changed: what the changed
/// one captures, and what the others captured.
pub proof fn lemma_captured_after_update(regions: Seq<DelegateView>, i: int, d: DelegateView, l: Link)
    requires
        0 <= i < regions.len(),
    ensures
        captured(regions.update(i, d), l) <==> captures(d, l) || exists|a: int|
            0 <= a < regions.len() && a != i && captures(#[trigger] regions[a], l),
        all_ids_distinct(regions) && ids_distinct(d) ==> all_ids_distinct(regions.update(i, d)),
{
    let after = regions.update(i, d);
    if captured(after, l) {
        let a = choose|a: int| 0 <= a < after.len() && captures(#[trigger] after[a], l);
        if a != i {
            assert(after[a] == regions[a]);
            assert(captures(regions[a], l));
        }
    }
    if captures(d, l) {
        assert(after[i] == d);
        assert(captures(after[i], l));
    }
    if exists|a: int| 0 <= a < regions.len() && a != i && captures(#[trigger] regions[a], l) {
        let a = choose|a: int| 0 <= a < regions.len() && a != i && captures(#[trigger] regions[a], l);
        assert(after[a] == regions[a]);
        assert(captures(after[a], l));
    }
    if all_ids_distinct(regions) && ids_distinct(d) {
        assert forall|a: int| 0 <= a < after.len() implies ids_distinct(#[trigger] after[a]) by {
            if a != i {
                assert(after[a] == regions[a]);
                assert(ids_distinct(regions[a]));
            }
        }
    }
}

/// What a region captures is of that region.
pub proof fn lemma_captures_region(d: DelegateView, l: Link)
    requires
        captures(d, l),
    ensures
        l.region_id == d.region_id,
{
    let k = choose|k: int| 0 <= k < d.downstreams.len() && #[trigger] link_of(d, k) == l;
}


/// No connection occurs twice.
pub open spec fn conn_ids_distinct(conns: Seq<ConnView>) -> bool {
    forall|i: int, j: int| 0 <= i < j < conns.len() ==> conns[i].id != conns[j].id
}

/// Among connections that do not occur twice, a subscription is had by
/// the connection that it names, or by none.
pub proof fn lemma_subscribed_by(conns: Seq<ConnView>, c: int, l: Link)
    requires
        conn_ids_distinct(conns),
        0 <= c < conns.len(),
        conns[c].id == l.conn_id,
    ensures
        subscribed(conns, l) == subscribes(conns[c], l),
{
    if subscribed(conns, l) {
        let a = choose|a: int| 0 <= a < conns.len() && subscribes(#[trigger] conns[a], l);
        if a < c {
            assert(conns[a].id != conns[c].id);
        } else if c < a {
            assert(conns[c].id != conns[a].id);
        }
    }
}

/// What connections have when one of them is changed: what the changed
/// one has, and what the others had.
pub proof fn lemma_subscribed_after_update(conns: Seq<ConnView>, c: int, changed: ConnView, l: Link)
    requires
        conn_ids_distinct(conns),
        0 <= c < conns.len(),
        changed.id == conns[c].id,
    ensures
        subscribed(conns.update(c, changed), l) == if l.conn_id == changed.id {
            subscribes(changed, l)
        } else {
            subscribed(conns, l)
        },
        conn_ids_distinct(conns.update(c, changed)),
{
    let after = conns.update(c, changed);
    assert forall|a: int, b: int| 0 <= a < b < after.len() implies after[a].id != after[b].id by {
        assert(after[a].id == conns[a].id && after[b].id == conns[b].id);
    }
    if l.conn_id == changed.id {
        lemma_subscribed_by(after, c, l);
    } else {
        if subscribed(after, l) {
            let a = choose|a: int| 0 <= a < after.len() && subscribes(#[trigger] after[a], l);
            assert(after[a] == conns[a]);
            assert(subscribes(conns[a], l));
        }
        if subscribed(conns, l) {
            let a = choose|a: int| 0 <= a < conns.len() && subscribes(#[trigger] conns[a], l);
            assert(after[a] == conns[a]);
            assert(subscribes(after[a], l));
        }
    }
}

/// What connections have when one of them is taken out: what the others
/// had.
pub proof fn lemma_subscribed_after_remove(conns: Seq<ConnView>, c: int, l: Link)
    requires
        conn_ids_distinct(conns),
        0 <= c < conns.len(),
    ensures
        subscribed(conns.remove(c), l) <==> subscribed(conns, l) && l.conn_id != conns[c].id,
{
    let after = conns.remove(c);
    assert forall|a: int| 0 <= a < after.len() implies #[trigger] after[a] == conns[if a < c {
        a
    } else {
        a + 1
    }] by {}
    if subscribed(after, l) {
        let a = choose|a: int| 0 <= a < after.len() && subscribes(#[trigger] after[a], l);
        let a0 = if a < c {
            a
        } else {
            a + 1
        };
        assert(after[a] == conns[a0]);
        assert(subscribes(conns[a0], l));
        if a0 < c {
            assert(conns[a0].id != conns[c].id);
        } else {
            assert(conns[c].id != conns[a0].id);
        }
    }
    if subscribed(conns, l) && l.conn_id != conns[c].id {
        let a = choose|a: int| 0 <= a < conns.len() && subscribes(#[trigger] conns[a], l);
        let a1 = if a < c {
            a
        } else {
            a - 1
        };
        assert(after[a1] == conns[a]);
        assert(subscribes(after[a1], l));
    }
}

/// What the regions capture after a subscription has been taken out of
/// its region: what they captured, but for the subscription with that
/// id in that region.
pub proof fn lemma_captured_after_deregister(
    s: EndpointView,
    region_id: u64,
    downstream_id: DownstreamId,
    err: Option<Error>,
    l: Link,
)
    requires
        s.wf(),
        all_ids_distinct(s.capture_regions),
    ensures
        captured(s.deregister_downstream(region_id, downstream_id, err).0.capture_regions, l) <==> captured(
            s.capture_regions,
            l,
        ) && !(l.region_id == region_id && l.downstream_id == downstream_id),
        all_ids_distinct(s.deregister_downstream(region_id, downstream_id, err).0.capture_regions),
{
    let regions = s.capture_regions;
    lemma_first_index(regions, delegate_of(region_id));
    match region_index(regions, region_id) {
        None => {
            if captured(regions, l) {
                let a = choose|a: int| 0 <= a < regions.len() && captures(#[trigger] regions[a], l);
                lemma_captures_region(regions[a], l);
                assert(!delegate_of(region_id)(regions[a]));
            }
        },
        Some(i) => {
            let d = regions[i];
            assert(ids_distinct(d));
            let step = d.unsubscribe(downstream_id, err);
            lemma_captures_after_unsubscribe(d, downstream_id, err, l);
            if captured(regions, l) {
                let a = choose|a: int| 0 <= a < regions.len() && captures(#[trigger] regions[a], l);
                lemma_captures_region(regions[a], l);
                if a < i {
                    assert(regions[a].region_id != regions[i].region_id);
                } else if i < a {
                    assert(regions[i].region_id != regions[a].region_id);
                }
            }
            if step.0.downstreams.len() == 0 {
                lemma_captured_after_remove(regions, i, l);
                if captures(d, l) && l.downstream_id != downstream_id {
                    let k = choose|k: int| 0 <= k < step.0.downstreams.len() && #[trigger] link_of(step.0, k) == l;
                }
            } else {
                lemma_captured_after_update(regions, i, step.0, l);
                if captures(step.0, l) {
                    lemma_captures_region(step.0, l);
                }
                if exists|a: int| 0 <= a < regions.len() && a != i && captures(#[trigger] regions[a], l) {
                    let a = choose|a: int|
                        0 <= a < regions.len() && a != i && captures(#[trigger] regions[a], l);
                    lemma_captures_region(regions[a], l);
                    if a < i {
                        assert(regions[a].region_id != regions[i].region_id);
                    } else {
                        assert(regions[i].region_id != regions[a].region_id);
                    }
                }
            }
        },
    }
}

/// What the regions capture after subscriptions have been taken out of
/// their regions, one after the other: what they captured, but for
/// those subscriptions.
pub proof fn lemma_captured_after_deregisters(
    s: EndpointView,
    subs: Seq<(u64, DownstreamId)>,
    err: Option<Error>,
    out: Seq<EffectView>,
    l: Link,
)
    requires
        s.wf(),
        all_ids_distinct(s.capture_regions),
    ensures
        captured(s.deregister_downstreams(subs, err, out).0.capture_regions, l) <==> captured(
            s.capture_regions,
            l,
        ) && !subs.contains((l.region_id, l.downstream_id)),
        all_ids_distinct(s.deregister_downstreams(subs, err, out).0.capture_regions),
    decreases subs.len(),
{
    if subs.len() > 0 {
        let first = subs.first();
        let step = s.deregister_downstream(first.0, first.1, err);
        lemma_captured_after_deregister(s, first.0, first.1, err, l);
        crate::invariants::lemma_deregister_downstream_wf(s, first.0, first.1, err);
        lemma_captured_after_deregisters(step.0, subs.drop_first(), err, out + step.1, l);
        let rest = subs.drop_first();
        if subs.contains((l.region_id, l.downstream_id)) {
            let j = choose|j: int| 0 <= j < subs.len() && subs[j] == (l.region_id, l.downstream_id);
            if j > 0 {
                assert(rest[j - 1] == subs[j]);
            }
        }
        if rest.contains((l.region_id, l.downstream_id)) {
            let j = choose|j: int| 0 <= j < rest.len() && rest[j] == (l.region_id, l.downstream_id);
            assert(subs[j + 1] == rest[j]);
        }
        if first == (l.region_id, l.downstream_id) {
            assert(subs[0] == first);
        }
    }
}

/// What connections have after each has taken out its subscription of a
/// region by a request: what they had, but for that request and region.
pub proof fn lemma_get_after_unsubscribe_all(
    conns: Seq<ConnView>,
    request_id: RequestId,
    region_id: u64,
    c: int,
    other_request: RequestId,
    other_region: u64,
)
    requires
        crate::invariants::conns_wf(conns),
        0 <= c < conns.len(),
    ensures
        unsubscribe_all(conns, request_id, region_id)[c].get_downstream(other_request, other_region)
            == if other_request == request_id && other_region == region_id {
            None
        } else {
            conns[c].get_downstream(other_request, other_region)
        },
        unsubscribe_all(conns, request_id, region_id)[c].id == conns[c].id,
        unsubscribe_all(conns, request_id, region_id).len() == conns.len(),
{
    lemma_get_after_unsubscribe(conns[c], request_id, region_id, other_request, other_region);
}

/// Taking requests out of connections takes no connection away.
pub proof fn lemma_unsubscribe_requests_len(conns: Seq<ConnView>, ds: Seq<DownstreamView>, region_id: u64)
    ensures
        unsubscribe_requests(conns, ds, region_id).len() == conns.len(),
    decreases ds.len(),
{
    if ds.len() > 0 {
        lemma_unsubscribe_requests_len(
            unsubscribe_all(conns, ds.first().req_id, region_id),
            ds.drop_first(),
            region_id,
        );
    }
}

/// Whether one of the subscriptions is of the request.
pub open spec fn has_request(ds: Seq<DownstreamView>, request_id: RequestId) -> bool {
    exists|k: int| 0 <= k < ds.len() && (#[trigger] ds[k]).req_id == request_id
}

/// What connections have after the requests of a region's subscriptions
/// have been taken out of all of them, for the region: what they had,
/// but for those requests and that region.
pub proof fn lemma_get_after_unsubscribe_requests(
    conns: Seq<ConnView>,
    ds: Seq<DownstreamView>,
    region_id: u64,
    c: int,
    other_request: RequestId,
    other_region: u64,
)
    requires
        crate::invariants::conns_wf(conns),
        0 <= c < conns.len(),
    ensures
        unsubscribe_requests(conns, ds, region_id).len() == conns.len(),
        unsubscribe_requests(conns, ds, region_id)[c].id == conns[c].id,
        unsubscribe_requests(conns, ds, region_id)[c].get_downstream(other_request, other_region)
            == if other_region == region_id && has_request(ds, other_request) {
            None
        } else {
            conns[c].get_downstream(other_request, other_region)
        },
    decreases ds.len(),
{
    if ds.len() > 0 {
        let first = ds.first().req_id;
        let next = unsubscribe_all(conns, first, region_id);
        lemma_get_after_unsubscribe_all(conns, first, region_id, c, other_request, other_region);
        crate::invariants::lemma_unsubscribe_all_wf(conns, first, region_id);
        lemma_get_after_unsubscribe_requests(
            next,
            ds.drop_first(),
            region_id,
            c,
            other_request,
            other_region,
        );
        let rest = ds.drop_first();
        if has_request(ds, other_request) {
            let k = choose|k: int| 0 <= k < ds.len() && (#[trigger] ds[k]).req_id == other_request;
            if k > 0 {
                assert(rest[k - 1] == ds[k]);
            }
        }
        if has_request(rest, other_request) {
            let k = choose|k: int| 0 <= k < rest.len() && (#[trigger] rest[k]).req_id == other_request;
            assert(ds[k + 1] == rest[k]);
        }
        if first == other_request {
            assert(ds[0].req_id == other_request);
        }
    }
}


/// The two tables say the same, and in no region two subscriptions have
/// the same id.
pub open spec fn agree(s: EndpointView) -> bool {
    &&& all_ids_distinct(s.capture_regions)
    &&& forall|l: Link| captured(s.capture_regions, l) <==> subscribed(s.connections, l)
}

/// Two subscriptions that are captured in the same region under the same
/// id are the same.
pub proof fn lemma_captured_same_id(regions: Seq<DelegateView>, l: Link, m: Link)
    requires
        forall|a: int, b: int|
            0 <= a < b < regions.len() ==> regions[a].region_id != regions[b].region_id,
        all_ids_distinct(regions),
        captured(regions, l),
        captured(regions, m),
        l.region_id == m.region_id,
        l.downstream_id == m.downstream_id,
    ensures
        l == m,
{
    let a = choose|a: int| 0 <= a < regions.len() && captures(#[trigger] regions[a], l);
    let b = choose|b: int| 0 <= b < regions.len() && captures(#[trigger] regions[b], m);
    lemma_captures_region(regions[a], l);
    lemma_captures_region(regions[b], m);
    if a < b {
        assert(regions[a].region_id != regions[b].region_id);
    } else if b < a {
        assert(regions[b].region_id != regions[a].region_id);
    }
    let d = regions[a];
    assert(ids_distinct(d));
    let k = choose|k: int| 0 <= k < d.downstreams.len() && #[trigger] link_of(d, k) == l;
    let j = choose|j: int| 0 <= j < d.downstreams.len() && #[trigger] link_of(d, j) == m;
    if k < j {
        assert(d.downstreams[k].id != d.downstreams[j].id);
    } else if j < k {
        assert(d.downstreams[j].id != d.downstreams[k].id);
    }
}

/// What a connection in shape lists among its subscriptions, it has.
pub proof fn lemma_listed_is_had(c: ConnView, j: int)
    requires
        c.wf(),
        0 <= j < c.downstreams().len(),
    ensures
        c.get_downstream(c.downstreams()[j].request_id, c.downstreams()[j].region_id) == Some(
            c.downstreams()[j].downstream_id,
        ),
{
    let n = c.exclusive.len() as int;
    if j < n {
        assert(c.downstreams()[j] == c.exclusive[j]);
        assert(c.exclusive[j].request_id.0 == 0);
        lemma_lookup_entry(c.exclusive, j);
    } else {
        assert(c.downstreams()[j] == c.multiplexed[j - n]);
        assert(c.multiplexed[j - n].request_id.0 != 0);
        lemma_lookup_entry(c.multiplexed, j - n);
    }
}

/// What a connection has, it lists among its subscriptions.
pub proof fn lemma_had_is_listed(c: ConnView, request_id: RequestId, region_id: u64)
    ensures
        match c.get_downstream(request_id, region_id) {
            Some(id) => targets(c.downstreams()).contains((region_id, id)) && c.of_request(
                request_id,
            ).contains((region_id, id)),
            None => true,
        },
{
    let table = c.table_of(request_id);
    lemma_lookup_found(table, request_id, region_id);
    match c.get_downstream(request_id, region_id) {
        Some(id) => {
            let want = Subscription { request_id, region_id, downstream_id: id };
            let j = choose|j: int| 0 <= j < table.len() && #[trigger] table[j] == want;
            let all = c.downstreams();
            let k = if request_id.0 == 0 {
                j
            } else {
                c.exclusive.len() + j
            };
            assert(all[k] == want);
            assert(targets(all)[k] == (region_id, id));
            lemma_of_request(table, request_id, region_id, id);
        },
        None => {},
    }
}

/// A deregistration keeps the two tables in agreement.
pub proof fn lemma_on_deregister_agrees(s: EndpointView, deregister: crate::task::Deregister)
    requires
        s.wf(),
        agree(s),
    ensures
        agree(s.on_deregister(deregister).0),
{
    let after = s.on_deregister(deregister).0;
    let regions = s.capture_regions;
    let conns = s.connections;
    match deregister {
        crate::task::Deregister::Conn(conn_id) => {
            lemma_first_index(conns, crate::conn::conn_with_id(conn_id));
            match crate::conn::conn_index(conns, conn_id) {
                None => {},
                Some(c) => {
                    let conn = conns[c];
                    let subs = targets(conn.downstreams());
                    let s1 = EndpointView { connections: conns.remove(c), ..s };
                    crate::invariants::lemma_conns_remove(conns, c);
                    crate::invariants::lemma_deregister_downstreams_wf(s1, subs, None, Seq::empty());
                    assert forall|l: Link| captured(after.capture_regions, l) <==> subscribed(
                        after.connections,
                        l,
                    ) by {
                        lemma_captured_after_deregisters(s1, subs, None, Seq::empty(), l);
                        lemma_subscribed_after_remove(conns, c, l);
                        if captured(regions, l) && subs.contains((l.region_id, l.downstream_id)) {
                            let j = choose|j: int|
                                0 <= j < subs.len() && subs[j] == (l.region_id, l.downstream_id);
                            lemma_listed_is_had(conn, j);
                            let m = Link {
                                conn_id: conn.id,
                                request_id: conn.downstreams()[j].request_id,
                                region_id: l.region_id,
                                downstream_id: l.downstream_id,
                            };
                            assert(subscribes(conns[c], m));
                            assert(subscribed(conns, m));
                            lemma_captured_same_id(regions, l, m);
                        }
                        if subscribed(conns, l) && l.conn_id == conn.id {
                            lemma_subscribed_by(conns, c, l);
                            lemma_had_is_listed(conn, l.request_id, l.region_id);
                        }
                    }
                    lemma_captured_after_deregisters(
                        s1,
                        subs,
                        None,
                        Seq::empty(),
                        arbitrary(),
                    );
                },
            }
        },
        crate::task::Deregister::Request { conn_id, request_id } => {
            lemma_first_index(conns, crate::conn::conn_with_id(conn_id));
            match crate::conn::conn_index(conns, conn_id) {
                None => {},
                Some(c) => {
                    let conn = conns[c];
                    let changed = conn.unsubscribe_request(request_id);
                    let subs = conn.of_request(request_id);
                    let s1 = EndpointView { connections: conns.update(c, changed), ..s };
                    crate::invariants::lemma_unsubscribe_request_wf(conn, request_id);
                    crate::invariants::lemma_conns_update(conns, c, changed);
                    crate::invariants::lemma_deregister_downstreams_wf(
                        s1,
                        subs,
                        Some(Error::Other),
                        Seq::empty(),
                    );
                    assert forall|l: Link| captured(after.capture_regions, l) <==> subscribed(
                        after.connections,
                        l,
                    ) by {
                        lemma_captured_after_deregisters(s1, subs, Some(Error::Other), Seq::empty(), l);
                        lemma_subscribed_after_update(conns, c, changed, l);
                        lemma_get_after_unsubscribe_request(conn, request_id, l.request_id, l.region_id);
                        if l.conn_id == conn.id {
                            lemma_subscribed_by(conns, c, l);
                        }
                        if captured(regions, l) && subs.contains((l.region_id, l.downstream_id)) {
                            lemma_of_request(
                                conn.table_of(request_id),
                                request_id,
                                l.region_id,
                                l.downstream_id,
                            );
                            let want = Subscription {
                                request_id,
                                region_id: l.region_id,
                                downstream_id: l.downstream_id,
                            };
                            let table = conn.table_of(request_id);
                            let j = choose|j: int| 0 <= j < table.len() && #[trigger] table[j] == want;
                            lemma_lookup_entry(table, j);
                            let m = Link {
                                conn_id: conn.id,
                                request_id,
                                region_id: l.region_id,
                                downstream_id: l.downstream_id,
                            };
                            assert(subscribes(conns[c], m));
                            assert(subscribed(conns, m));
                            lemma_captured_same_id(regions, l, m);
                        }
                        if l.conn_id == conn.id && l.request_id == request_id && subscribes(conn, l) {
                            lemma_had_is_listed(conn, l.request_id, l.region_id);
                        }
                    }
                    lemma_captured_after_deregisters(
                        s1,
                        subs,
                        Some(Error::Other),
                        Seq::empty(),
                        arbitrary(),
                    );
                },
            }
        },
        crate::task::Deregister::Region { conn_id, request_id, region_id } => {
            lemma_first_index(conns, crate::conn::conn_with_id(conn_id));
            match crate::conn::conn_index(conns, conn_id) {
                None => {},
                Some(c) => match conns[c].get_downstream(request_id, region_id) {
                    None => {},
                    Some(id) => {
                        lemma_unsubscribe_agrees(s, c, request_id, region_id, id, Some(Error::Other));
                    },
                },
            }
        },
        crate::task::Deregister::Downstream { conn_id, request_id, region_id, downstream_id, err } => {
            lemma_first_index(conns, crate::conn::conn_with_id(conn_id));
            match crate::conn::conn_index(conns, conn_id) {
                None => {},
                Some(c) => {
                    if conns[c].get_downstream(request_id, region_id) == Some(downstream_id) {
                        lemma_unsubscribe_agrees(s, c, request_id, region_id, downstream_id, err);
                    }
                },
            }
        },
        crate::task::Deregister::Delegate { region_id, observe_id, err } => {
            lemma_first_index(regions, delegate_of(region_id));
            match region_index(regions, region_id) {
                None => {},
                Some(i) => {
                    if regions[i].observe_id == observe_id {
                        let d = regions[i];
                        let ds = d.downstreams;
                        assert forall|l: Link| captured(after.capture_regions, l) <==> subscribed(
                            after.connections,
                            l,
                        ) by {
                            lemma_captured_after_remove(regions, i, l);
                            let later = unsubscribe_requests(conns, ds, region_id);
                            if subscribed(later, l) {
                                let c = choose|c: int|
                                    0 <= c < later.len() && subscribes(#[trigger] later[c], l);
                                lemma_unsubscribe_requests_len(conns, ds, region_id);
                                lemma_get_after_unsubscribe_requests(
                                    conns,
                                    ds,
                                    region_id,
                                    c,
                                    l.request_id,
                                    l.region_id,
                                );
                                assert(subscribes(conns[c], l));
                                assert(subscribed(conns, l));
                                if l.region_id == region_id {
                                    lemma_captured_of_region(regions, i, l);
                                }
                            }
                            if captured(regions, l) && l.region_id != region_id {
                                lemma_unsubscribe_requests_len(conns, ds, region_id);
                                let c = choose|c: int|
                                    0 <= c < conns.len() && subscribes(#[trigger] conns[c], l);
                                lemma_get_after_unsubscribe_requests(
                                    conns,
                                    ds,
                                    region_id,
                                    c,
                                    l.request_id,
                                    l.region_id,
                                );
                                assert(subscribes(later[c], l));
                            }
                        }
                        lemma_captured_after_remove(
                            regions,
                            i,
                            arbitrary(),
                        );
                    }
                },
            }
        },
    }
}

/// What is captured for a region is a subscription of that region's
/// capture state, under a request that one of them has.
pub proof fn lemma_captured_of_region(regions: Seq<DelegateView>, i: int, l: Link)
    requires
        forall|a: int, b: int|
            0 <= a < b < regions.len() ==> regions[a].region_id != regions[b].region_id,
        0 <= i < regions.len(),
        captured(regions, l),
        l.region_id == regions[i].region_id,
    ensures
        captures(regions[i], l),
        has_request(regions[i].downstreams, l.request_id),
{
    let a = choose|a: int| 0 <= a < regions.len() && captures(#[trigger] regions[a], l);
    lemma_captures_region(regions[a], l);
    if a < i {
        assert(regions[a].region_id != regions[i].region_id);
    } else if i < a {
        assert(regions[i].region_id != regions[a].region_id);
    }
    let k = choose|k: int| 0 <= k < regions[i].downstreams.len() && #[trigger] link_of(regions[i], k) == l;
    assert(regions[i].downstreams[k].req_id == l.request_id);
}

/// Taking a subscription out of its connection and out of its region
/// keeps the two tables in agreement.
pub proof fn lemma_unsubscribe_agrees(
    s: EndpointView,
    c: int,
    request_id: RequestId,
    region_id: u64,
    id: DownstreamId,
    err: Option<Error>,
)
    requires
        s.wf(),
        agree(s),
        0 <= c < s.connections.len(),
        s.connections[c].get_downstream(request_id, region_id) == Some(id),
    ensures
        agree(
            (EndpointView {
                connections: s.connections.update(
                    c,
                    s.connections[c].unsubscribe(request_id, region_id),
                ),
                ..s
            }).deregister_downstream(region_id, id, err).0,
        ),
{
    let conns = s.connections;
    let regions = s.capture_regions;
    let conn = conns[c];
    let changed = conn.unsubscribe(request_id, region_id);
    let s1 = EndpointView { connections: conns.update(c, changed), ..s };
    let after = s1.deregister_downstream(region_id, id, err).0;
    crate::conn::lemma_conn_wf(conn, request_id, region_id, id);
    crate::invariants::lemma_conns_update(conns, c, changed);
    crate::invariants::lemma_deregister_downstream_wf(s1, region_id, id, err);
    let own = Link { conn_id: conn.id, request_id, region_id, downstream_id: id };
    assert(subscribes(conns[c], own));
    assert(subscribed(conns, own));
    assert(captured(regions, own));
    assert forall|l: Link| captured(after.capture_regions, l) <==> subscribed(
        after.connections,
        l,
    ) by {
        lemma_captured_after_deregister(s1, region_id, id, err, l);
        lemma_subscribed_after_update(conns, c, changed, l);
        lemma_get_after_unsubscribe(conn, request_id, region_id, l.request_id, l.region_id);
        if l.conn_id == conn.id {
            lemma_subscribed_by(conns, c, l);
        }
        if captured(regions, l) && l.region_id == region_id && l.downstream_id == id {
            lemma_captured_same_id(regions, l, own);
        }
    }
    lemma_captured_after_deregister(s1, region_id, id, err, own);
}


impl EndpointView {
    /// The tables have their shape, and say the same.
    pub open spec fn coherent(self) -> bool {
        self.wf() && agree(self)
    }
}

/// What a message has to bring for the tables to stay in agreement. A
/// registration names its request as its subscription does, and the id
/// of its subscription is not in use in its region. A connection that is
/// opened has an id that is not in use, and no subscriptions.
pub open spec fn admissible(s: EndpointView, task: TaskView) -> bool {
    match task {
        TaskView::Register { request, downstream } => {
            &&& downstream.req_id == RequestId(request.request_id)
            &&& match region_index(s.capture_regions, request.region_id) {
                Some(i) => s.capture_regions[i].index_of(downstream.id) is None,
                None => true,
            }
        },
        TaskView::OpenConn { conn } => {
            &&& crate::conn::conn_index(s.connections, conn.id) is None
            &&& conn.exclusive.len() == 0
            &&& conn.multiplexed.len() == 0
        },
        _ => true,
    }
}

/// Regions whose capture states hold the same subscriptions as before
/// capture the same.
pub proof fn lemma_captured_same(regions: Seq<DelegateView>, i: int, d: DelegateView, l: Link)
    requires
        0 <= i < regions.len(),
        d.region_id == regions[i].region_id,
        d.downstreams.len() == regions[i].downstreams.len(),
        forall|k: int|
            0 <= k < d.downstreams.len() ==> #[trigger] link_of(d, k) == link_of(regions[i], k),
    ensures
        captured(regions.update(i, d), l) == captured(regions, l),
        all_ids_distinct(regions) ==> all_ids_distinct(regions.update(i, d)),
{
    lemma_captures_same(d, regions[i], l);
    lemma_captured_after_update(regions, i, d, l);
    if captures(regions[i], l) {
        assert(captured(regions, l));
    }
    if all_ids_distinct(regions) {
        assert(ids_distinct(regions[i]));
    }
}

/// A registration keeps the two tables in agreement.
pub proof fn lemma_on_register_agrees(s: EndpointView, request: crate::task::ChangeDataRequest, downstream: DownstreamView)
    requires
        s.wf(),
        agree(s),
        admissible(s, TaskView::Register { request, downstream }),
    ensures
        agree(s.on_register(request, downstream).0),
{
    let conns = s.connections;
    let regions = s.capture_regions;
    let region_id = request.region_id;
    let request_id = RequestId(request.request_id);
    lemma_first_index(conns, crate::conn::conn_with_id(downstream.conn_id));
    lemma_first_index(regions, delegate_of(region_id));
    match crate::conn::conn_index(conns, downstream.conn_id) {
        None => {},
        Some(c) => {
            if s.refusal(conns[c], request, downstream) is None {
                let conn = conns[c];
                let changed = conn.subscribe(request_id, region_id, downstream.id);
                let started = DownstreamView {
                    state: downstream.state.spec_start_scan(),
                    ..downstream
                };
                let after = s.on_register(request, downstream).0;
                let own = Link {
                    conn_id: conn.id,
                    request_id,
                    region_id,
                    downstream_id: downstream.id,
                };
                match region_index(regions, region_id) {
                    Some(i) => {
                        let d = regions[i];
                        assert(ids_distinct(d));
                        assert forall|l: Link| captured(after.capture_regions, l) <==> subscribed(
                            after.connections,
                            l,
                        ) by {
                            lemma_subscribed_after_update(conns, c, changed, l);
                            lemma_get_after_subscribe(
                                conn,
                                request_id,
                                region_id,
                                downstream.id,
                                l.request_id,
                                l.region_id,
                            );
                            if l.conn_id == conn.id {
                                lemma_subscribed_by(conns, c, l);
                            }
                            lemma_captures_after_subscribe(d, started, l);
                            lemma_captured_after_update(regions, i, d.subscribe(started), l);
                            if captures(d, l) {
                                assert(captured(regions, l));
                            }
                            if captures(d.subscribe(started), l) && !captures(d, l) {
                                assert(l == own);
                            }
                        }
                        lemma_captures_after_subscribe(d, started, own);
                        lemma_captured_after_update(regions, i, d.subscribe(started), own);
                    },
                    None => {
                        let d = DelegateView::new(region_id, crate::ids::ObserveId(s.next_observe_id));
                        let fresh = d.subscribe(started);
                        assert(ids_distinct(d));
                        lemma_first_index_absent(d.downstreams, downstream_with_id(started.id));
                        assert forall|l: Link| captured(after.capture_regions, l) <==> subscribed(
                            after.connections,
                            l,
                        ) by {
                            lemma_subscribed_after_update(conns, c, changed, l);
                            lemma_get_after_subscribe(
                                conn,
                                request_id,
                                region_id,
                                downstream.id,
                                l.request_id,
                                l.region_id,
                            );
                            if l.conn_id == conn.id {
                                lemma_subscribed_by(conns, c, l);
                            }
                            lemma_captures_after_subscribe(d, started, l);
                            lemma_captured_after_push(regions, fresh, l);
                            if captures(d, l) {
                                let k = choose|k: int|
                                    0 <= k < d.downstreams.len() && #[trigger] link_of(d, k) == l;
                            }
                        }
                        lemma_captures_after_subscribe(d, started, own);
                        lemma_captured_after_push(regions, fresh, own);
                    },
                }
            }
        },
    }
}

/// What regions capture when one more is captured: what they captured,
/// and what the new one captures.
pub proof fn lemma_captured_after_push(regions: Seq<DelegateView>, d: DelegateView, l: Link)
    ensures
        captured(regions.push(d), l) <==> captured(regions, l) || captures(d, l),
        all_ids_distinct(regions) && ids_distinct(d) ==> all_ids_distinct(regions.push(d)),
{
    let after = regions.push(d);
    if captured(after, l) {
        let a = choose|a: int| 0 <= a < after.len() && captures(#[trigger] after[a], l);
        if a < regions.len() {
            assert(after[a] == regions[a]);
            assert(captures(regions[a], l));
        }
    }
    if captured(regions, l) {
        let a = choose|a: int| 0 <= a < regions.len() && captures(#[trigger] regions[a], l);
        assert(after[a] == regions[a]);
        assert(captures(after[a], l));
    }
    if captures(d, l) {
        assert(after[regions.len() as int] == d);
        assert(captures(after[regions.len() as int], l));
    }
    if all_ids_distinct(regions) && ids_distinct(d) {
        assert forall|a: int| 0 <= a < after.len() implies ids_distinct(#[trigger] after[a]) by {
            if a < regions.len() {
                assert(after[a] == regions[a]);
                assert(ids_distinct(regions[a]));
            }
        }
    }
}

/// An engine whose region `i` is changed without touching its
/// subscriptions' ids, connections and requests stays in agreement.
pub proof fn lemma_same_links_agree(s: EndpointView, i: int, d: DelegateView)
    requires
        agree(s),
        0 <= i < s.capture_regions.len(),
        d.region_id == s.capture_regions[i].region_id,
        d.downstreams.len() == s.capture_regions[i].downstreams.len(),
        forall|k: int|
            0 <= k < d.downstreams.len() ==> #[trigger] link_of(d, k) == link_of(
                s.capture_regions[i],
                k,
            ),
    ensures
        agree(EndpointView { capture_regions: s.capture_regions.update(i, d), ..s }),
{
    let after = EndpointView { capture_regions: s.capture_regions.update(i, d), ..s };
    assert forall|l: Link| captured(after.capture_regions, l) <==> subscribed(
        after.connections,
        l,
    ) by {
        lemma_captured_same(s.capture_regions, i, d, l);
    }
    lemma_captured_same(
        s.capture_regions,
        i,
        d,
        arbitrary(),
    );
}

/// A batch keeps the two tables in agreement.
pub proof fn lemma_on_batch_agrees(s: EndpointView, batch: crate::batch::CmdBatchView, out: Seq<EffectView>)
    requires
        s.wf(),
        agree(s),
    ensures
        agree(s.on_batch(batch, out).0),
{
    lemma_first_index(s.capture_regions, delegate_of(batch.region_id));
    match region_index(s.capture_regions, batch.region_id) {
        None => {},
        Some(i) => {
            if !s.capture_regions[i].failed {
                let step = s.capture_regions[i].on_batch(batch, out);
                crate::invariants::lemma_apply_cmds_frame(s.capture_regions[i], batch.cmds, out);
                match step.2 {
                    Ok(_) => {
                        lemma_same_links_agree(s, i, step.0);
                    },
                    Err(e) => {
                        let failed = DelegateView { failed: true, ..step.0 };
                        lemma_same_links_agree(s, i, failed);
                        crate::invariants::lemma_regions_update(
                            s.capture_regions,
                            s.next_observe_id,
                            i,
                            failed,
                        );
                        lemma_on_deregister_agrees(
                            EndpointView {
                                capture_regions: s.capture_regions.update(i, failed),
                                ..s
                            },
                            crate::task::Deregister::Delegate {
                                region_id: batch.region_id,
                                observe_id: step.0.observe_id,
                                err: e,
                            },
                        );
                    },
                }
            }
        },
    }
}

/// Batches keep the two tables in agreement.
pub proof fn lemma_on_batches_agree(s: EndpointView, multi: Seq<crate::batch::CmdBatchView>, out: Seq<EffectView>)
    requires
        s.wf(),
        agree(s),
    ensures
        agree(s.on_batches(multi, out).0),
    decreases multi.len(),
{
    if multi.len() > 0 {
        lemma_on_batch_agrees(s, multi.first(), out);
        crate::invariants::lemma_on_batch_wf(s, multi.first(), out);
        let step = s.on_batch(multi.first(), out);
        lemma_on_batches_agree(step.0, multi.drop_first(), step.1);
    }
}

/// Taking failed subscriptions out keeps the two tables in agreement.
pub proof fn lemma_deregister_failed_agrees(
    s: EndpointView,
    region_id: u64,
    failed: Seq<crate::delegate::FailedDownstream>,
    out: Seq<EffectView>,
)
    requires
        s.wf(),
        agree(s),
    ensures
        agree(s.deregister_failed(region_id, failed, out).0),
    decreases failed.len(),
{
    if failed.len() > 0 {
        let f = failed.first();
        let d = crate::task::Deregister::Downstream {
            conn_id: f.conn_id,
            request_id: f.req_id,
            region_id,
            downstream_id: f.downstream_id,
            err: Some(f.err),
        };
        lemma_on_deregister_agrees(s, d);
        crate::invariants::lemma_on_deregister_wf(s, d);
        let step = s.on_deregister(d);
        lemma_deregister_failed_agrees(step.0, region_id, failed.drop_first(), out + step.1);
    }
}

/// A resolution cycle leaves what the regions capture as it is.
pub proof fn lemma_gather_agrees(
    s: EndpointView,
    ids: Seq<u64>,
    min_ts: crate::timestamp::TimeStamp,
    advance: crate::advance::AdvanceView,
)
    requires
        agree(s),
    ensures
        agree(
            EndpointView {
                capture_regions: crate::model::gather(
                    s.capture_regions,
                    ids,
                    min_ts,
                    s.connections,
                    advance,
                ).0,
                ..s
            },
        ),
    decreases ids.len(),
{
    if ids.len() > 0 {
        let regions = s.capture_regions;
        lemma_first_index(regions, delegate_of(ids.first()));
        match region_index(regions, ids.first()) {
            Some(i) => {
                lemma_same_links_agree(s, i, regions[i].advanced(min_ts));
                lemma_gather_agrees(
                    EndpointView {
                        capture_regions: regions.update(i, regions[i].advanced(min_ts)),
                        ..s
                    },
                    ids.drop_first(),
                    min_ts,
                    regions[i].on_min_ts(min_ts, s.connections, advance),
                );
            },
            None => {
                lemma_gather_agrees(s, ids.drop_first(), min_ts, advance);
            },
        }
    } else {
        assert(EndpointView { capture_regions: s.capture_regions, ..s } == s);
    }
}

/// Every message that is admissible keeps the tables in shape and in
/// agreement: after it, no connection, region or subscription occurs
/// twice, and a connection has a subscription exactly if the region of
/// the subscription captures it.
pub proof fn lemma_run_coherent(s: EndpointView, task: TaskView)
    requires
        s.coherent(),
        admissible(s, task),
    ensures
        s.run(task).0.coherent(),
{
    lemma_admissible_wf(s, task);
    lemma_run_agrees(s, task);
}

/// A connection that is opened without subscriptions has its tables in
/// shape.
pub proof fn lemma_admissible_wf(s: EndpointView, task: TaskView)
    requires
        admissible(s, task),
    ensures
        task.wf(),
{
}

proof fn lemma_run_agrees(s: EndpointView, task: TaskView)
    requires
        s.wf(),
        task.wf(),
        agree(s),
        admissible(s, task),
    ensures
        agree(s.run(task).0),
        s.run(task).0.wf(),
{
    crate::invariants::lemma_run_wf(s, task);
    let conns = s.connections;
    let regions = s.capture_regions;
    match task {
        TaskView::Register { request, downstream } => {
            lemma_on_register_agrees(s, request, downstream);
        },
        TaskView::Deregister(deregister) => {
            lemma_on_deregister_agrees(s, deregister);
        },
        TaskView::OpenConn { conn } => {
            let after = s.run(task).0;
            lemma_first_index(conns, crate::conn::conn_with_id(conn.id));
            assert forall|l: Link| captured(after.capture_regions, l) <==> subscribed(
                after.connections,
                l,
            ) by {
                lemma_first_index_absent(conn.exclusive, ConnView::matcher(l.request_id, l.region_id));
                lemma_first_index_absent(conn.multiplexed, ConnView::matcher(l.request_id, l.region_id));
                assert(!subscribes(conn, l));
                let later = conns.push(conn);
                if subscribed(later, l) {
                    let a = choose|a: int| 0 <= a < later.len() && subscribes(#[trigger] later[a], l);
                    assert(later[a] == conns[a]);
                    assert(subscribes(conns[a], l));
                }
                if subscribed(conns, l) {
                    let a = choose|a: int| 0 <= a < conns.len() && subscribes(#[trigger] conns[a], l);
                    assert(later[a] == conns[a]);
                    assert(subscribes(later[a], l));
                }
            }
        },
        TaskView::SetConnVersion { conn_id, version, explicit_features } => {
            let after = s.run(task).0;
            lemma_first_index(conns, crate::conn::conn_with_id(conn_id));
            match crate::conn::conn_index(conns, conn_id) {
                Some(c) => {
                    let changed = conns[c].check_version_and_set_feature(version, explicit_features);
                    assert forall|l: Link| captured(after.capture_regions, l) <==> subscribed(
                        after.connections,
                        l,
                    ) by {
                        lemma_subscribed_after_update(conns, c, changed, l);
                        if l.conn_id == changed.id {
                            lemma_subscribed_by(conns, c, l);
                        }
                    }
                },
                None => {},
            }
        },
        TaskView::MultiBatch { multi } => {
            let freed = EndpointView {
                sink_memory_quota: s.sink_memory_quota.spec_free(crate::model::total_size(multi, 0)),
                ..s
            };
            lemma_on_batches_agree(freed, multi, Seq::empty());
        },
        TaskView::MinTs { regions: ids, min_ts, current_ts } => {
            lemma_gather_agrees(s, ids, min_ts, crate::advance::AdvanceView::new());
        },
        TaskView::FinishScanLocks { observe_id, region, locks } => {
            lemma_first_index(regions, delegate_of(region.id));
            match region_index(regions, region.id) {
                None => {},
                Some(i) => {
                    if regions[i].observe_id == observe_id {
                        match regions[i].finish_scan_locks(region.region_epoch, locks) {
                            Ok(d) => {
                                lemma_same_links_agree(s, i, d);
                                crate::invariants::lemma_regions_update(
                                    regions,
                                    s.next_observe_id,
                                    i,
                                    d,
                                );
                                lemma_deregister_failed_agrees(
                                    EndpointView { capture_regions: regions.update(i, d), ..s },
                                    region.id,
                                    regions[i].failed_on_finish(region.region_epoch),
                                    Seq::empty(),
                                );
                            },
                            Err(e) => {
                                lemma_on_deregister_agrees(
                                    s,
                                    crate::task::Deregister::Delegate {
                                        region_id: region.id,
                                        observe_id,
                                        err: e,
                                    },
                                );
                            },
                        }
                    }
                },
            }
        },
        TaskView::RegisterMinTsEvent { .. } => {},
        TaskView::InitDownstream { region_id, observe_id, downstream_id } => {
            lemma_first_index(regions, delegate_of(region_id));
            match region_index(regions, region_id) {
                None => {},
                Some(i) => {
                    if regions[i].observe_id == observe_id {
                        let after = s.on_init_downstream(region_id, observe_id, downstream_id).0;
                        lemma_first_index(regions[i].downstreams, downstream_with_id(downstream_id));
                        lemma_same_links_agree(s, i, after.capture_regions[i]);
                        assert(after.capture_regions =~= regions.update(i, after.capture_regions[i]));
                    }
                },
            }
        },
        TaskView::TxnExtra { .. } => {},
        TaskView::Validate(..) => {},
        TaskView::ChangeConfig(..) => {},
    }
}

/// An engine that captures nothing yet has its tables in shape and in
/// agreement.
pub proof fn lemma_new_coherent(s: EndpointView)
    requires
        s.capture_regions.len() == 0,
        s.connections.len() == 0,
    ensures
        s.coherent(),
{
}

} // verus!
