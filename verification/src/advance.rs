//! One resolution cycle: the regions' resolved timestamps are gathered by
//! subscriber group, and sent out in batches that grow.

use vstd::prelude::*;
use crate::conn::{Conn, ConnView, features_of, find_conn};
use crate::effect::{Effect, EffectView};
use crate::event::{CdcEvent, CdcEventView, Event, EventKind, EventKindView, EventView, ResolvedTs, ResolvedTsView};
use crate::feature::FeatureGate;
use crate::heap::{ResolvedRegion, ResolvedRegionHeap, distinct_regions, min_resolved_ts, popped_len, spec_push};
use crate::ids::{ConnId, RequestId};
use crate::seqs::{first_index, is_first, lemma_first_index_absent, lemma_first_index_found, views};
use crate::timestamp::TimeStamp;

verus! {

/// The size of the first batch that is sent for a group.
pub const FIRST_BATCH: usize = 8;

/// The resolved regions of one group of subscriptions: of one request of
/// a connection that multiplexes, or of a whole connection that does not.
#[derive(Clone, Debug, PartialEq, Eq)]
pub struct HeapGroup {
    pub conn_id: ConnId,
    pub request_id: RequestId,
    pub heap: ResolvedRegionHeap,
}

pub struct HeapGroupView {
    pub conn_id: ConnId,
    pub request_id: RequestId,
    pub heap: Seq<ResolvedRegion>,
}

impl View for HeapGroup {
    type V = HeapGroupView;

    open spec fn view(&self) -> HeapGroupView {
        HeapGroupView { conn_id: self.conn_id, request_id: self.request_id, heap: self.heap@ }
    }
}

/// The resolved timestamp of one region for a connection that does not
/// take batches.
#[derive(Clone, Copy, Debug, PartialEq, Eq, Structural)]
pub struct CompatEntry {
    pub conn_id: ConnId,
    pub region_id: u64,
    pub request_id: RequestId,
    pub ts: TimeStamp,
}

/// The least resolved timestamp that a cycle has sent so far, and a
/// region that has it. A timestamp of zero stands for none sent yet.
#[derive(Clone, Copy, Debug, PartialEq, Eq, Structural)]
pub struct Slowest {
    pub ts: u64,
    pub region_id: u64,
}

impl Slowest {
    pub open spec fn none() -> Slowest {
        Slowest { ts: 0, region_id: 0 }
    }

    /// After a batch with timestamp `ts` for `regions` has been sent.
    pub open spec fn batch(self, ts: u64, regions: Seq<u64>) -> Slowest {
        if self.ts == 0 || self.ts > ts {
            Slowest {
                ts,
                region_id: if regions.len() > 0 {
                    regions[0]
                } else {
                    self.region_id
                },
            }
        } else {
            self
        }
    }

    /// The one of the two with the lesser timestamp, where both have sent
    /// something; the one that has, where only one has.
    pub open spec fn least(self, other: Slowest) -> Slowest {
        if self.ts > 0 && (other.ts == 0 || self.ts <= other.ts) {
            self
        } else if other.ts > 0 {
            other
        } else {
            self
        }
    }

    /// After timestamp `ts` has been sent for region `region_id` alone.
    pub open spec fn single(self, ts: u64, region_id: u64) -> Slowest {
        if self.ts == 0 || self.ts > ts {
            Slowest { ts, region_id }
        } else {
            self
        }
    }
}

/// What one cycle gathers.
#[derive(Clone, Debug, Default, PartialEq, Eq)]
pub struct Advance {
    /// Of connections that multiplex: one group for each request.
    pub multiplexing: Vec<HeapGroup>,
    /// Of connections that take batches and do not multiplex: one group
    /// for each connection.
    pub exclusive: Vec<HeapGroup>,
    /// Of connections that take no batches: one entry for each region.
    pub compat: Vec<CompatEntry>,
    /// Subscriptions whose scan is done.
    pub scan_finished: usize,
    /// Subscriptions that wait for their scan.
    pub blocked_on_scan: usize,
    /// Subscriptions that a lock holds back.
    pub blocked_on_locks: usize,
    pub min_resolved_ts: u64,
    pub min_ts_region_id: u64,
}

pub struct AdvanceView {
    pub multiplexing: Seq<HeapGroupView>,
    pub exclusive: Seq<HeapGroupView>,
    pub compat: Seq<CompatEntry>,
    pub scan_finished: usize,
    pub blocked_on_scan: usize,
    pub blocked_on_locks: usize,
    pub min_resolved_ts: u64,
    pub min_ts_region_id: u64,
}

impl View for Advance {
    type V = AdvanceView;

    open spec fn view(&self) -> AdvanceView {
        AdvanceView {
            multiplexing: views(self.multiplexing@),
            exclusive: views(self.exclusive@),
            compat: self.compat@,
            scan_finished: self.scan_finished,
            blocked_on_scan: self.blocked_on_scan,
            blocked_on_locks: self.blocked_on_locks,
            min_resolved_ts: self.min_resolved_ts,
            min_ts_region_id: self.min_ts_region_id,
        }
    }
}

/// Tells the group of the connection, and of the request where one is
/// given, from the others.
pub open spec fn group_of(conn_id: ConnId, request_id: Option<RequestId>) -> spec_fn(
    HeapGroupView,
) -> bool {
    |g: HeapGroupView|
        g.conn_id == conn_id && match request_id {
            Some(r) => g.request_id == r,
            None => true,
        }
}

/// Tells the entry of the connection for the region from the others.
pub open spec fn compat_of(conn_id: ConnId, region_id: u64) -> spec_fn(CompatEntry) -> bool {
    |e: CompatEntry| e.conn_id == conn_id && e.region_id == region_id
}

/// The groups after a region has been added to the group of the
/// connection, and of the request where one is given. A group that is not
/// there yet is made; without a request it goes under request zero.
pub open spec fn push_group(
    groups: Seq<HeapGroupView>,
    conn_id: ConnId,
    request_id: Option<RequestId>,
    region: ResolvedRegion,
) -> Seq<HeapGroupView> {
    match first_index(groups, group_of(conn_id, request_id)) {
        Some(i) => groups.update(
            i,
            HeapGroupView { heap: spec_push(groups[i].heap, region), ..groups[i] },
        ),
        None => groups.push(
            HeapGroupView {
                conn_id,
                request_id: match request_id {
                    Some(r) => r,
                    None => RequestId(0),
                },
                heap: spec_push(Seq::empty(), region),
            },
        ),
    }
}

/// The entries after one has been put in: it takes the place of the
/// entry of its connection for its region, if there is one.
pub open spec fn insert_compat(entries: Seq<CompatEntry>, entry: CompatEntry) -> Seq<CompatEntry> {
    match first_index(entries, compat_of(entry.conn_id, entry.region_id)) {
        Some(i) => entries.update(i, entry),
        None => entries.push(entry),
    }
}

/// The size of the batch after one of `count`: four times as large, as
/// far as the machine can count.
pub open spec fn grow(count: usize) -> usize {
    if count <= usize::MAX / 4 {
        (count * 4) as usize
    } else {
        usize::MAX
    }
}

/// The message that carries one batch.
pub open spec fn batch_effect(conn_id: ConnId, request_id: RequestId, ts: u64, regions: Seq<u64>) -> EffectView {
    EffectView::Send {
        conn_id,
        event: CdcEventView::ResolvedTs(ResolvedTsView { ts, request_id: request_id.0, regions }),
    }
}

/// The message that carries the resolved timestamp of one region.
pub open spec fn single_effect(entry: CompatEntry) -> EffectView {
    EffectView::Send {
        conn_id: entry.conn_id,
        event: CdcEventView::Event(
            EventView {
                region_id: entry.region_id,
                request_id: entry.request_id.0,
                event: EventKindView::ResolvedTs(entry.ts.0),
            },
        ),
    }
}

/// Empties one group's queue in batches, the first of `count` regions and
/// each further one four times as large. Where `send` holds, every batch
/// is added to `out` as one message and is counted in `acc`; where not,
/// the batches are dropped.
pub open spec fn emit_heap(
    send: bool,
    conn_id: ConnId,
    request_id: RequestId,
    heap: Seq<ResolvedRegion>,
    count: usize,
    acc: Slowest,
    out: Seq<EffectView>,
) -> (Seq<EffectView>, Slowest)
    decreases heap.len(),
{
    if heap.len() == 0 || count == 0 {
        (out, acc)
    } else {
        let k = popped_len(heap.len(), count);
        let ts = min_resolved_ts(heap.take(k));
        let regions = distinct_regions(heap.take(k));
        if send {
            emit_heap(
                send,
                conn_id,
                request_id,
                heap.skip(k),
                grow(count),
                acc.batch(ts, regions),
                out.push(batch_effect(conn_id, request_id, ts, regions)),
            )
        } else {
            emit_heap(send, conn_id, request_id, heap.skip(k), grow(count), acc, out)
        }
    }
}

/// Whether batches are sent to the connection: it must be there, and have
/// the feature.
pub open spec fn takes_batches(conns: Seq<ConnView>, conn_id: ConnId) -> bool {
    match features_of(conns, conn_id) {
        Some(f) => f.batch_resolved_ts,
        None => false,
    }
}

/// Empties the groups, one after the other.
pub open spec fn emit_groups(
    groups: Seq<HeapGroupView>,
    conns: Seq<ConnView>,
    acc: Slowest,
    out: Seq<EffectView>,
) -> (Seq<EffectView>, Slowest)
    decreases groups.len(),
{
    if groups.len() == 0 {
        (out, acc)
    } else {
        let g = groups.first();
        let step = emit_heap(
            takes_batches(conns, g.conn_id),
            g.conn_id,
            g.request_id,
            g.heap,
            FIRST_BATCH,
            acc,
            out,
        );
        emit_groups(groups.drop_first(), conns, step.1, step.0)
    }
}

/// Sends the entries, each as a message of its own, to the connections
/// that are there.
pub open spec fn emit_compat(
    entries: Seq<CompatEntry>,
    conns: Seq<ConnView>,
    acc: Slowest,
    out: Seq<EffectView>,
) -> (Seq<EffectView>, Slowest)
    decreases entries.len(),
{
    if entries.len() == 0 {
        (out, acc)
    } else {
        let e = entries.first();
        if features_of(conns, e.conn_id) is Some {
            emit_compat(
                entries.drop_first(),
                conns,
                acc.single(e.ts.0, e.region_id),
                out.push(single_effect(e)),
            )
        } else {
            emit_compat(entries.drop_first(), conns, acc, out)
        }
    }
}

impl AdvanceView {
    pub open spec fn new() -> AdvanceView {
        AdvanceView {
            multiplexing: Seq::empty(),
            exclusive: Seq::empty(),
            compat: Seq::empty(),
            scan_finished: 0,
            blocked_on_scan: 0,
            blocked_on_locks: 0,
            min_resolved_ts: 0,
            min_ts_region_id: 0,
        }
    }

    /// Enters the resolved timestamp of a region for one subscription,
    /// under the group that the features of its connection call for.
    pub open spec fn record(
        self,
        features: FeatureGate,
        conn_id: ConnId,
        request_id: RequestId,
        region: ResolvedRegion,
    ) -> AdvanceView {
        if features.stream_multiplexing {
            AdvanceView {
                multiplexing: push_group(self.multiplexing, conn_id, Some(request_id), region),
                ..self
            }
        } else if features.batch_resolved_ts {
            AdvanceView { exclusive: push_group(self.exclusive, conn_id, None, region), ..self }
        } else {
            AdvanceView {
                compat: insert_compat(
                    self.compat,
                    CompatEntry {
                        conn_id,
                        region_id: region.region_id,
                        request_id,
                        ts: region.resolved_ts,
                    },
                ),
                ..self
            }
        }
    }

    /// The messages of the cycle, with the least timestamp that any of
    /// them carries and a region that has it.
    pub open spec fn emitted(self, conns: Seq<ConnView>) -> (Seq<EffectView>, Slowest) {
        let multiplexed = emit_groups(self.multiplexing, conns, Slowest::none(), Seq::empty());
        let batched = emit_groups(self.exclusive, conns, multiplexed.1, multiplexed.0);
        let single = emit_compat(self.compat, conns, Slowest::none(), batched.0);
        (single.0, batched.1.least(single.1))
    }

    /// What is left when everything has been sent: the counts, and the
    /// least timestamp with its region.
    pub open spec fn emit_resolved_ts(self, conns: Seq<ConnView>) -> AdvanceView {
        AdvanceView {
            multiplexing: Seq::empty(),
            exclusive: Seq::empty(),
            compat: Seq::empty(),
            min_resolved_ts: self.emitted(conns).1.ts,
            min_ts_region_id: self.emitted(conns).1.region_id,
            ..self
        }
    }
}

fn grow_batch(count: usize) -> (r: usize)
    ensures
        r == grow(count),
{
    if count <= usize::MAX / 4 {
        count * 4
    } else {
        usize::MAX
    }
}

fn find_group(groups: &Vec<HeapGroup>, conn_id: ConnId, request_id: Option<RequestId>) -> (r: Option<
    usize,
>)
    ensures
        match r {
            Some(i) => first_index(views(groups@), group_of(conn_id, request_id)) == Some(i as int)
                && i < groups.len(),
            None => first_index(views(groups@), group_of(conn_id, request_id)) == None::<int>,
        },
{
    let mut i: usize = 0;
    while i < groups.len()
        invariant
            i <= groups.len(),
            forall|j: int| 0 <= j < i ==> !group_of(conn_id, request_id)(#[trigger] views(groups@)[j]),
        decreases groups.len() - i,
    {
        assert(views(groups@)[i as int] == groups@[i as int]@);
        let same_request = match request_id {
            Some(r) => groups[i].request_id == r,
            None => true,
        };
        if groups[i].conn_id == conn_id && same_request {
            proof {
                assert(is_first(views(groups@), group_of(conn_id, request_id), i as int));
                lemma_first_index_found(views(groups@), group_of(conn_id, request_id), i as int);
            }
            return Some(i);
        }
        i += 1;
    }
    proof {
        lemma_first_index_absent(views(groups@), group_of(conn_id, request_id));
    }
    None
}

fn push_to_group(
    groups: &mut Vec<HeapGroup>,
    conn_id: ConnId,
    request_id: Option<RequestId>,
    region_id: u64,
    resolved_ts: TimeStamp,
)
    ensures
        views(final(groups)@) == push_group(
            views(old(groups)@),
            conn_id,
            request_id,
            ResolvedRegion { region_id, resolved_ts },
        ),
{
    match find_group(groups, conn_id, request_id) {
        Some(i) => {
            assert(views(groups@)[i as int] == groups@[i as int]@);
            groups[i].heap.push(region_id, resolved_ts);
            assert(views(groups@) =~= push_group(
                views(old(groups)@),
                conn_id,
                request_id,
                ResolvedRegion { region_id, resolved_ts },
            ));
        },
        None => {
            let mut heap = ResolvedRegionHeap::new();
            heap.push(region_id, resolved_ts);
            let group = HeapGroup {
                conn_id,
                request_id: match request_id {
                    Some(r) => r,
                    None => RequestId(0),
                },
                heap,
            };
            groups.push(group);
            assert(views(groups@) =~= views(old(groups)@).push(group@));
        },
    }
}

fn put_compat(entries: &mut Vec<CompatEntry>, entry: CompatEntry)
    ensures
        final(entries)@ == insert_compat(old(entries)@, entry),
{
    let mut i: usize = 0;
    while i < entries.len()
        invariant
            i <= entries.len(),
            entries@ == old(entries)@,
            forall|j: int| 0 <= j < i ==> !compat_of(entry.conn_id, entry.region_id)(#[trigger] entries@[j]),
        decreases entries.len() - i,
    {
        if entries[i].conn_id == entry.conn_id && entries[i].region_id == entry.region_id {
            proof {
                assert(is_first(entries@, compat_of(entry.conn_id, entry.region_id), i as int));
                lemma_first_index_found(entries@, compat_of(entry.conn_id, entry.region_id), i as int);
            }
            entries[i] = entry;
            return ;
        }
        i += 1;
    }
    proof {
        lemma_first_index_absent(entries@, compat_of(entry.conn_id, entry.region_id));
    }
    entries.push(entry);
}

/// Whether batches are sent to the connection.
fn conn_takes_batches(conns: &Vec<Conn>, conn_id: ConnId) -> (r: bool)
    ensures
        r == takes_batches(views(conns@), conn_id),
{
    match find_conn(conns, conn_id) {
        Some(i) => {
            assert(views(conns@)[i as int] == conns@[i as int]@);
            conns[i].features().batch_resolved_ts
        },
        None => false,
    }
}

fn slowest_batch(acc: &mut Slowest, ts: u64, regions: &Vec<u64>)
    ensures
        *final(acc) == old(acc).batch(ts, regions@),
{
    if acc.ts == 0 || acc.ts > ts {
        acc.ts = ts;
        if regions.len() > 0 {
            acc.region_id = regions[0];
        }
    }
}

fn send_heap(
    send: bool,
    conn_id: ConnId,
    request_id: RequestId,
    heap: &mut ResolvedRegionHeap,
    acc: &mut Slowest,
    out: &mut Vec<Effect>,
)
    ensures
        (views(final(out)@), *final(acc)) == emit_heap(
            send,
            conn_id,
            request_id,
            old(heap)@,
            FIRST_BATCH,
            *old(acc),
            views(old(out)@),
        ),
        final(heap)@.len() == 0,
{
    let mut batch_count: usize = FIRST_BATCH;
    while !heap.is_empty()
        invariant
            batch_count > 0,
            emit_heap(send, conn_id, request_id, heap@, batch_count, *acc, views(out@)) == emit_heap(
                send,
                conn_id,
                request_id,
                old(heap)@,
                FIRST_BATCH,
                *old(acc),
                views(old(out)@),
            ),
        decreases heap@.len(),
    {
        let ghost before = views(out@);
        let (ts, regions) = heap.pop(batch_count);
        if send {
            slowest_batch(acc, ts.0, &regions);
            let effect = Effect::Send {
                conn_id,
                event: CdcEvent::ResolvedTs(
                    ResolvedTs { ts: ts.0, request_id: request_id.0, regions },
                ),
            };
            out.push(effect);
            assert(views(out@) =~= before.push(effect@));
        }
        batch_count = grow_batch(batch_count);
    }
}

fn send_groups(groups: &mut Vec<HeapGroup>, conns: &Vec<Conn>, acc: &mut Slowest, out: &mut Vec<Effect>)
    ensures
        (views(final(out)@), *final(acc)) == emit_groups(
            views(old(groups)@),
            views(conns@),
            *old(acc),
            views(old(out)@),
        ),
        final(groups)@.len() == 0,
{
    let mut i: usize = 0;
    assert(views(old(groups)@).skip(0) =~= views(old(groups)@));
    while i < groups.len()
        invariant
            i <= groups.len(),
            groups@.len() == old(groups)@.len(),
            forall|j: int| i <= j < groups.len() ==> groups@[j] == old(groups)@[j],
            emit_groups(views(old(groups)@).skip(i as int), views(conns@), *acc, views(out@))
                == emit_groups(views(old(groups)@), views(conns@), *old(acc), views(old(out)@)),
        decreases groups.len() - i,
    {
        let ghost rest = views(old(groups)@).skip(i as int);
        assert(rest.first() == groups@[i as int]@);
        assert(rest.drop_first() =~= views(old(groups)@).skip(i + 1));
        let conn_id = groups[i].conn_id;
        let request_id = groups[i].request_id;
        let send = conn_takes_batches(conns, conn_id);
        send_heap(send, conn_id, request_id, &mut groups[i].heap, acc, out);
        i += 1;
    }
    assert(views(old(groups)@).skip(i as int).len() == 0);
    groups.clear();
}

fn send_compat(entries: &mut Vec<CompatEntry>, conns: &Vec<Conn>, acc: &mut Slowest, out: &mut Vec<Effect>)
    ensures
        (views(final(out)@), *final(acc)) == emit_compat(
            old(entries)@,
            views(conns@),
            *old(acc),
            views(old(out)@),
        ),
        final(entries)@.len() == 0,
{
    let mut i: usize = 0;
    assert(entries@.skip(0) =~= entries@);
    while i < entries.len()
        invariant
            i <= entries.len(),
            entries@ == old(entries)@,
            emit_compat(entries@.skip(i as int), views(conns@), *acc, views(out@)) == emit_compat(
                old(entries)@,
                views(conns@),
                *old(acc),
                views(old(out)@),
            ),
        decreases entries.len() - i,
    {
        let ghost rest = entries@.skip(i as int);
        let ghost before = views(out@);
        assert(rest.first() == entries@[i as int]);
        assert(rest.drop_first() =~= entries@.skip(i + 1));
        let entry = entries[i];
        if find_conn(conns, entry.conn_id).is_some() {
            if acc.ts == 0 || acc.ts > entry.ts.0 {
                acc.ts = entry.ts.0;
                acc.region_id = entry.region_id;
            }
            let effect = Effect::Send {
                conn_id: entry.conn_id,
                event: CdcEvent::Event(
                    Event {
                        region_id: entry.region_id,
                        request_id: entry.request_id.0,
                        event: EventKind::ResolvedTs(entry.ts.0),
                    },
                ),
            };
            out.push(effect);
            assert(views(out@) =~= before.push(effect@));
        }
        i += 1;
    }
    assert(entries@.skip(i as int).len() == 0);
    entries.clear();
}

impl Advance {
    pub fn new() -> (r: Advance)
        ensures
            r@ == AdvanceView::new(),
    {
        let r = Advance {
            multiplexing: Vec::new(),
            exclusive: Vec::new(),
            compat: Vec::new(),
            scan_finished: 0,
            blocked_on_scan: 0,
            blocked_on_locks: 0,
            min_resolved_ts: 0,
            min_ts_region_id: 0,
        };
        assert(r@.multiplexing =~= Seq::empty());
        assert(r@.exclusive =~= Seq::empty());
        r
    }

    /// Enters the resolved timestamp of a region for one subscription.
    pub fn record(
        &mut self,
        features: FeatureGate,
        conn_id: ConnId,
        request_id: RequestId,
        region_id: u64,
        resolved_ts: TimeStamp,
    )
        ensures
            final(self)@ == old(self)@.record(
                features,
                conn_id,
                request_id,
                ResolvedRegion { region_id, resolved_ts },
            ),
    {
        if features.stream_multiplexing {
            push_to_group(&mut self.multiplexing, conn_id, Some(request_id), region_id, resolved_ts);
        } else if features.batch_resolved_ts {
            push_to_group(&mut self.exclusive, conn_id, None, region_id, resolved_ts);
        } else {
            put_compat(
                &mut self.compat,
                CompatEntry { conn_id, region_id, request_id, ts: resolved_ts },
            );
        }
    }

    /// Sends what the cycle has gathered: to connections that take
    /// batches one message for each batch of their groups, to the others
    /// one message for each region. Keeps the least timestamp sent, and
    /// returns the messages in the order in which they are to go out.
    pub fn emit_resolved_ts(&mut self, connections: &Vec<Conn>) -> (out: Vec<Effect>)
        ensures
            final(self)@ == old(self)@.emit_resolved_ts(views(connections@)),
            views(out@) == old(self)@.emitted(views(connections@)).0,
    {
        let mut out: Vec<Effect> = Vec::new();
        assert(views(out@) =~= Seq::<EffectView>::empty());
        let mut batched = Slowest { ts: 0, region_id: 0 };
        send_groups(&mut self.multiplexing, connections, &mut batched, &mut out);
        send_groups(&mut self.exclusive, connections, &mut batched, &mut out);
        let mut single = Slowest { ts: 0, region_id: 0 };
        send_compat(&mut self.compat, connections, &mut single, &mut out);
        if batched.ts > 0 && (single.ts == 0 || batched.ts <= single.ts) {
            self.min_resolved_ts = batched.ts;
            self.min_ts_region_id = batched.region_id;
        } else if single.ts > 0 {
            self.min_resolved_ts = single.ts;
            self.min_ts_region_id = single.region_id;
        } else {
            self.min_resolved_ts = batched.ts;
            self.min_ts_region_id = batched.region_id;
        }
        assert(self@.multiplexing =~= Seq::empty());
        assert(self@.exclusive =~= Seq::empty());
        assert(self@.compat =~= Seq::empty());
        out
    }
}

} // verus!
