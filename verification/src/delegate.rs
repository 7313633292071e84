//! The capture state of one region: its observation epoch, its
//! subscriptions and its lock table.

use vstd::prelude::*;
use crate::advance::{Advance, AdvanceView};
use crate::batch::{Cmd, CmdBatch, CmdBatchView, CmdView, lock_change, lock_change_of};
use crate::conn::{Conn, ConnView, features_of, find_conn};
use crate::downstream::{Downstream, DownstreamState, DownstreamView};
use crate::effect::{Effect, EffectView};
use crate::error::{Error, RegionEpoch, RegionError};
use crate::event::{CdcEvent, CdcEventView, Event, EventKind, EventKindView, EventView, Row, RowView};
use crate::heap::ResolvedRegion;
use crate::ids::{ConnId, DownstreamId, ObserveId, RequestId};
use crate::keys::ObservedRangeView;
use crate::lock::{KeyLock, KeyLockView, LockTracker, LockTrackerView, min_lock_ts};
use crate::seqs::{first_index, is_first, lemma_first_index_absent, lemma_first_index_found, views};
use crate::timestamp::TimeStamp;

verus! {

/// A subscription that cannot go on, and why.
#[derive(Clone, Copy, Debug, PartialEq, Eq, Structural)]
pub struct FailedDownstream {
    pub conn_id: ConnId,
    pub req_id: RequestId,
    pub downstream_id: DownstreamId,
    pub err: Error,
}

/// The capture state of one region.
#[derive(Clone, Debug, PartialEq, Eq)]
pub struct Delegate {
    pub region_id: u64,
    pub observe_id: ObserveId,
    /// The subscriptions, in the order in which they were made.
    pub downstreams: Vec<Downstream>,
    pub lock_tracker: LockTracker,
    /// The timestamp up to which the region is resolved. Only a
    /// resolution cycle changes it, and only forward.
    pub resolved_ts: TimeStamp,
    /// Set when a batch could not be applied: no further batch is.
    pub failed: bool,
}

pub struct DelegateView {
    pub region_id: u64,
    pub observe_id: ObserveId,
    pub downstreams: Seq<DownstreamView>,
    pub lock_tracker: LockTrackerView,
    pub resolved_ts: TimeStamp,
    pub failed: bool,
}

impl View for Delegate {
    type V = DelegateView;

    open spec fn view(&self) -> DelegateView {
        DelegateView {
            region_id: self.region_id,
            observe_id: self.observe_id,
            downstreams: views(self.downstreams@),
            lock_tracker: self.lock_tracker@,
            resolved_ts: self.resolved_ts,
            failed: self.failed,
        }
    }
}

/// Tells the subscription with the id from the others.
pub open spec fn downstream_with_id(id: DownstreamId) -> spec_fn(DownstreamView) -> bool {
    |d: DownstreamView| d.id == id
}

/// One more, as far as the machine can count.
pub open spec fn sat_inc(n: usize) -> usize {
    if n < usize::MAX {
        (n + 1) as usize
    } else {
        n
    }
}

/// The timestamp up to which a region with the given locks can be
/// resolved when the store as a whole is safe up to `min_ts`: the lesser
/// of `min_ts` and the least start timestamp of a lock.
pub open spec fn resolved_ts(min_ts: TimeStamp, locks: Seq<KeyLockView>) -> u64 {
    match min_lock_ts(locks) {
        Some(m) if m < min_ts.0 => m,
        _ => min_ts.0,
    }
}

/// Whether a lock holds the region back behind `min_ts`.
pub open spec fn blocked_by_lock(min_ts: TimeStamp, locks: Seq<KeyLockView>) -> bool {
    match min_lock_ts(locks) {
        Some(m) => m < min_ts.0,
        None => false,
    }
}

/// The error of a subscription whose epoch is not the region's.
pub open spec fn epoch_error(d: DownstreamView, epoch: RegionEpoch) -> Option<Error> {
    if d.region_epoch.version != epoch.version {
        Some(Error::Request(RegionError::EpochNotMatch { current: epoch }))
    } else {
        None
    }
}

/// The subscriptions among `ds` whose epoch is not `epoch`, added to
/// `out`.
pub open spec fn stale_downstreams(
    ds: Seq<DownstreamView>,
    epoch: RegionEpoch,
    out: Seq<FailedDownstream>,
) -> Seq<FailedDownstream>
    decreases ds.len(),
{
    if ds.len() == 0 {
        out
    } else {
        let d = ds.first();
        match epoch_error(d, epoch) {
            Some(err) => stale_downstreams(
                ds.drop_first(),
                epoch,
                out.push(
                    FailedDownstream { conn_id: d.conn_id, req_id: d.req_id, downstream_id: d.id, err },
                ),
            ),
            None => stale_downstreams(ds.drop_first(), epoch, out),
        }
    }
}

/// The rows among `rows` whose key lies in `range`, added to `out`.
pub open spec fn rows_in_range(rows: Seq<RowView>, range: ObservedRangeView, out: Seq<RowView>) -> Seq<
    RowView,
>
    decreases rows.len(),
{
    if rows.len() == 0 {
        out
    } else if range.contains(rows.first().key) {
        rows_in_range(rows.drop_first(), range, out.push(rows.first()))
    } else {
        rows_in_range(rows.drop_first(), range, out)
    }
}

/// The message that carries rows of a region to a subscription.
pub open spec fn entries_effect(region_id: u64, d: DownstreamView, rows: Seq<RowView>) -> EffectView {
    EffectView::Send {
        conn_id: d.conn_id,
        event: CdcEventView::Event(
            EventView { region_id, request_id: d.req_id.0, event: EventKindView::Entries(rows) },
        ),
    }
}

/// The messages that carry `rows` to the subscriptions `ds`, added to
/// `out`: each subscription that takes changes gets the rows of its range
/// in one message, if there are any.
pub open spec fn fan_out(
    region_id: u64,
    ds: Seq<DownstreamView>,
    rows: Seq<RowView>,
    out: Seq<EffectView>,
) -> Seq<EffectView>
    decreases ds.len(),
{
    if ds.len() == 0 {
        out
    } else {
        let d = ds.first();
        let mine = rows_in_range(rows, d.observed_range, Seq::empty());
        if d.state.spec_ready_for_change_events() && mine.len() > 0 {
            fan_out(region_id, ds.drop_first(), rows, out.push(entries_effect(region_id, d, mine)))
        } else {
            fan_out(region_id, ds.drop_first(), rows, out)
        }
    }
}

/// The lock table after the rows, oldest first. The first row that does
/// not fit ends it, and the table stays as that row found it.
pub open spec fn apply_rows(tracker: LockTrackerView, rows: Seq<RowView>) -> (
    LockTrackerView,
    Result<(), Error>,
)
    decreases rows.len(),
{
    if rows.len() == 0 {
        (tracker, Ok(()))
    } else {
        match tracker.change(lock_change_of(rows.first())) {
            Ok(t) => apply_rows(t, rows.drop_first()),
            Err(e) => (tracker, Err(e)),
        }
    }
}

/// The subscriptions with their state set to stopped.
pub open spec fn stopped(ds: Seq<DownstreamView>) -> Seq<DownstreamView> {
    Seq::new(ds.len(), |i: int| DownstreamView { state: DownstreamState::Stopped, ..ds[i] })
}

/// The messages that tell each subscription of the error.
pub open spec fn stop_effects(region_id: u64, ds: Seq<DownstreamView>, err: Error) -> Seq<EffectView> {
    Seq::new(
        ds.len(),
        |i: int|
            EffectView::send_error(
                ds[i].conn_id,
                region_id,
                ds[i].req_id,
                err.spec_into_error_event(region_id),
            ),
    )
}

/// The timestamp to which a region that is resolved up to `last` moves
/// in a cycle: the one up to which it can be resolved, unless that is
/// behind `last`. Then the region does not move.
pub open spec fn advance_to(last: TimeStamp, min_ts: TimeStamp, locks: Seq<KeyLockView>) -> Option<u64> {
    if resolved_ts(min_ts, locks) >= last.0 {
        Some(resolved_ts(min_ts, locks))
    } else {
        None
    }
}

/// Enters the resolved timestamp `ts` of the region for each of the
/// subscriptions `ds`. One whose scan is not done counts as blocked on
/// its scan and gets nothing. Each other one counts as finished, and as
/// blocked on locks where `blocked` holds; the timestamp is entered for
/// it if there is one and its connection is there.
pub open spec fn advance_downstreams(
    region_id: u64,
    ds: Seq<DownstreamView>,
    ts: Option<u64>,
    blocked: bool,
    conns: Seq<ConnView>,
    advance: AdvanceView,
) -> AdvanceView
    decreases ds.len(),
{
    if ds.len() == 0 {
        advance
    } else {
        let d = ds.first();
        if !d.state.spec_ready_for_advancing_ts() {
            advance_downstreams(
                region_id,
                ds.drop_first(),
                ts,
                blocked,
                conns,
                AdvanceView { blocked_on_scan: sat_inc(advance.blocked_on_scan), ..advance },
            )
        } else {
            let counted = AdvanceView {
                scan_finished: sat_inc(advance.scan_finished),
                blocked_on_locks: if blocked {
                    sat_inc(advance.blocked_on_locks)
                } else {
                    advance.blocked_on_locks
                },
                ..advance
            };
            advance_downstreams(
                region_id,
                ds.drop_first(),
                ts,
                blocked,
                conns,
                match (features_of(conns, d.conn_id), ts) {
                    (Some(f), Some(t)) => counted.record(
                        f,
                        d.conn_id,
                        d.req_id,
                        ResolvedRegion { region_id, resolved_ts: TimeStamp(t) },
                    ),
                    _ => counted,
                },
            )
        }
    }
}

impl DelegateView {
    /// The state of a region that nobody has subscribed yet.
    pub open spec fn new(region_id: u64, observe_id: ObserveId) -> DelegateView {
        DelegateView {
            region_id,
            observe_id,
            downstreams: Seq::empty(),
            lock_tracker: LockTrackerView::Pending,
            resolved_ts: TimeStamp(0),
            failed: false,
        }
    }

    pub open spec fn index_of(self, id: DownstreamId) -> Option<int> {
        first_index(self.downstreams, downstream_with_id(id))
    }

    /// Why the subscription cannot be taken: its epoch is not the one at
    /// which the region's locks were read.
    pub open spec fn refusal(self, d: DownstreamView) -> Option<Error> {
        match self.lock_tracker {
            LockTrackerView::Prepared { epoch, .. } => epoch_error(d, epoch),
            _ => None,
        }
    }

    /// The state after the subscription has been taken.
    pub open spec fn subscribe(self, d: DownstreamView) -> DelegateView {
        match self.refusal(d) {
            Some(_) => self,
            None => DelegateView { downstreams: self.downstreams.push(d), ..self },
        }
    }

    /// The state after the subscription with the id has gone, and the
    /// message that tells its client of `err`, if there is such a
    /// subscription and an error.
    pub open spec fn unsubscribe(self, id: DownstreamId, err: Option<Error>) -> (
        DelegateView,
        Seq<EffectView>,
    ) {
        match self.index_of(id) {
            Some(i) => (
                DelegateView { downstreams: self.downstreams.remove(i), ..self },
                match err {
                    Some(e) => seq![
                        EffectView::send_error(
                            self.downstreams[i].conn_id,
                            self.region_id,
                            self.downstreams[i].req_id,
                            e.spec_into_error_event(self.region_id),
                        ),
                    ],
                    None => Seq::empty(),
                },
            ),
            None => (self, Seq::empty()),
        }
    }

    /// The state after the region has failed with `err`, and the messages
    /// that tell every subscription of it.
    pub open spec fn stop(self, err: Error) -> (DelegateView, Seq<EffectView>) {
        (
            DelegateView { failed: true, downstreams: stopped(self.downstreams), ..self },
            stop_effects(self.region_id, self.downstreams, err),
        )
    }

    pub open spec fn init_lock_tracker(self) -> DelegateView {
        DelegateView { lock_tracker: self.lock_tracker.init(), ..self }
    }

    /// The subscriptions that cannot go on once the locks read at `epoch`
    /// are installed: none if locks were installed before, else those
    /// with another epoch.
    pub open spec fn failed_on_finish(self, epoch: RegionEpoch) -> Seq<FailedDownstream> {
        if self.lock_tracker is Prepared {
            Seq::empty()
        } else {
            stale_downstreams(self.downstreams, epoch, Seq::empty())
        }
    }

    /// The state after the scan has read `scanned` at `epoch`.
    pub open spec fn finish_scan_locks(self, epoch: RegionEpoch, scanned: Seq<KeyLockView>) -> Result<
        DelegateView,
        Error,
    > {
        match self.lock_tracker.finish(epoch, scanned) {
            Ok(t) => Ok(DelegateView { lock_tracker: t, ..self }),
            Err(e) => Err(e),
        }
    }

    /// The state after one command, with the messages it gives rise to
    /// added to `out`.
    pub open spec fn apply_cmd(self, cmd: CmdView, out: Seq<EffectView>) -> (
        DelegateView,
        Seq<EffectView>,
        Result<(), Error>,
    ) {
        match cmd {
            CmdView::Failed(e) => (self, out, Err(Error::Request(e))),
            CmdView::RegionChanged { current } => (
                self,
                out,
                Err(Error::Request(RegionError::EpochNotMatch { current })),
            ),
            CmdView::Admin => (self, out, Ok(())),
            CmdView::Data(rows) => {
                let applied = apply_rows(self.lock_tracker, rows);
                (
                    DelegateView { lock_tracker: applied.0, ..self },
                    if applied.1 is Ok {
                        fan_out(self.region_id, self.downstreams, rows, out)
                    } else {
                        out
                    },
                    applied.1,
                )
            },
        }
    }

    /// The state after the commands, oldest first; the first error ends
    /// it.
    pub open spec fn apply_cmds(self, cmds: Seq<CmdView>, out: Seq<EffectView>) -> (
        DelegateView,
        Seq<EffectView>,
        Result<(), Error>,
    )
        decreases cmds.len(),
    {
        if cmds.len() == 0 {
            (self, out, Ok(()))
        } else {
            let step = self.apply_cmd(cmds.first(), out);
            if step.2 is Ok {
                step.0.apply_cmds(cmds.drop_first(), step.1)
            } else {
                step
            }
        }
    }

    /// The state after a batch. A batch of another observation epoch is
    /// dropped.
    pub open spec fn on_batch(self, batch: CmdBatchView, out: Seq<EffectView>) -> (
        DelegateView,
        Seq<EffectView>,
        Result<(), Error>,
    ) {
        if batch.observe_id != self.observe_id {
            (self, out, Ok(()))
        } else {
            self.apply_cmds(batch.cmds, out)
        }
    }

    /// The region after a resolution cycle: it has moved to the
    /// timestamp up to which it can be resolved, unless it has no lock
    /// table yet or that timestamp is behind the one it is at.
    pub open spec fn advanced(self, min_ts: TimeStamp) -> DelegateView {
        match self.lock_tracker {
            LockTrackerView::Prepared { locks, .. } => match advance_to(
                self.resolved_ts,
                min_ts,
                locks,
            ) {
                Some(t) => DelegateView { resolved_ts: TimeStamp(t), ..self },
                None => self,
            },
            _ => self,
        }
    }

    /// What the cycle has gathered after this region. A region whose
    /// locks are not installed yet adds nothing.
    pub open spec fn on_min_ts(self, min_ts: TimeStamp, conns: Seq<ConnView>, advance: AdvanceView) -> AdvanceView {
        match self.lock_tracker {
            LockTrackerView::Prepared { locks, .. } => advance_downstreams(
                self.region_id,
                self.downstreams,
                advance_to(self.resolved_ts, min_ts, locks),
                blocked_by_lock(min_ts, locks),
                conns,
                advance,
            ),
            _ => advance,
        }
    }

    pub open spec fn summary(self) -> crate::effect::DelegateSummary {
        crate::effect::DelegateSummary {
            observe_id: self.observe_id,
            downstreams: self.downstreams.len() as usize,
            failed: self.failed,
        }
    }
}

fn inc(n: usize) -> (r: usize)
    ensures
        r == sat_inc(n),
{
    if n < usize::MAX {
        n + 1
    } else {
        n
    }
}

fn rows_for(rows: &Vec<Row>, d: &Downstream) -> (r: Vec<Row>)
    ensures
        views(r@) == rows_in_range(views(rows@), d@.observed_range, Seq::empty()),
{
    let mut out: Vec<Row> = Vec::new();
    let mut i: usize = 0;
    assert(views(rows@).skip(0) =~= views(rows@));
    assert(views(out@) =~= Seq::<RowView>::empty());
    while i < rows.len()
        invariant
            i <= rows.len(),
            rows_in_range(views(rows@).skip(i as int), d@.observed_range, views(out@)) == rows_in_range(
                views(rows@),
                d@.observed_range,
                Seq::empty(),
            ),
        decreases rows.len() - i,
    {
        let ghost rest = views(rows@).skip(i as int);
        let ghost before = views(out@);
        assert(rest.first() == rows@[i as int]@);
        assert(rest.drop_first() =~= views(rows@).skip(i + 1));
        if d.observed_range.contains(&rows[i].key) {
            let row = rows[i].duplicate();
            out.push(row);
            assert(views(out@) =~= before.push(row@));
        }
        i += 1;
    }
    assert(views(rows@).skip(i as int).len() == 0);
    out
}

impl Delegate {
    pub fn new(region_id: u64, observe_id: ObserveId) -> (r: Delegate)
        ensures
            r@ == DelegateView::new(region_id, observe_id),
    {
        let r = Delegate {
            region_id,
            observe_id,
            downstreams: Vec::new(),
            lock_tracker: LockTracker::Pending,
            resolved_ts: TimeStamp(0),
            failed: false,
        };
        assert(r@.downstreams =~= Seq::empty());
        r
    }

    pub fn has_failed(&self) -> (r: bool)
        ensures
            r == self@.failed,
    {
        self.failed
    }

    pub fn mark_failed(&mut self)
        ensures
            final(self)@ == (DelegateView { failed: true, ..old(self)@ }),
    {
        self.failed = true;
    }

    pub fn downstreams(&self) -> (r: &Vec<Downstream>)
        ensures
            views(r@) == self@.downstreams,
    {
        &self.downstreams
    }

    /// Finds the subscription with the id.
    pub fn position(&self, id: DownstreamId) -> (r: Option<usize>)
        ensures
            match r {
                Some(i) => self@.index_of(id) == Some(i as int) && i < self.downstreams.len(),
                None => self@.index_of(id) == None::<int>,
            },
    {
        let mut i: usize = 0;
        while i < self.downstreams.len()
            invariant
                i <= self.downstreams.len(),
                forall|j: int| 0 <= j < i ==> !downstream_with_id(id)(#[trigger] self@.downstreams[j]),
            decreases self.downstreams.len() - i,
        {
            assert(self@.downstreams[i as int] == self.downstreams@[i as int]@);
            if self.downstreams[i].id == id {
                proof {
                    assert(is_first(self@.downstreams, downstream_with_id(id), i as int));
                    lemma_first_index_found(self@.downstreams, downstream_with_id(id), i as int);
                }
                return Some(i);
            }
            i += 1;
        }
        proof {
            lemma_first_index_absent(self@.downstreams, downstream_with_id(id));
        }
        None
    }

    /// Takes a subscription, unless the region's locks were read at
    /// another epoch than the subscription's: then the subscription is
    /// handed back with the error, and nothing changes.
    pub fn subscribe(&mut self, downstream: Downstream) -> (r: Result<(), (Error, Downstream)>)
        ensures
            final(self)@ == old(self)@.subscribe(downstream@),
            match old(self)@.refusal(downstream@) {
                Some(e) => (r matches Err(back) && back.0 == e && back.1 == downstream),
                None => r is Ok,
            },
    {
        let refusal = match &self.lock_tracker {
            LockTracker::Prepared { epoch, .. } => {
                if downstream.region_epoch.version != epoch.version {
                    Some(Error::Request(RegionError::EpochNotMatch { current: *epoch }))
                } else {
                    None
                }
            },
            _ => None,
        };
        match refusal {
            Some(e) => Err((e, downstream)),
            None => {
                self.downstreams.push(downstream);
                assert(self@.downstreams =~= old(self)@.downstreams.push(downstream@));
                Ok(())
            },
        }
    }

    /// Takes the subscription with the id out and adds to `out` the
    /// message that tells its client of `err`, if there is such a
    /// subscription and an error. Returns whether no subscription is
    /// left.
    pub fn unsubscribe(&mut self, id: DownstreamId, err: Option<Error>, out: &mut Vec<Effect>) -> (r:
        bool)
        ensures
            final(self)@ == old(self)@.unsubscribe(id, err).0,
            views(final(out)@) == views(old(out)@) + old(self)@.unsubscribe(id, err).1,
            r == (final(self)@.downstreams.len() == 0),
    {
        match self.position(id) {
            Some(i) => {
                assert(self@.downstreams[i as int] == self.downstreams@[i as int]@);
                let d = self.downstreams.remove(i);
                assert(self@.downstreams =~= old(self)@.downstreams.remove(i as int));
                match err {
                    Some(e) => {
                        let effect = Effect::send_error(
                            d.conn_id,
                            self.region_id,
                            d.req_id,
                            e.into_error_event(self.region_id),
                        );
                        out.push(effect);
                        assert(views(out@) =~= views(old(out)@) + seq![effect@]);
                    },
                    None => {
                        assert(views(out@) =~= views(old(out)@) + Seq::<EffectView>::empty());
                    },
                }
            },
            None => {
                assert(views(out@) =~= views(old(out)@) + Seq::<EffectView>::empty());
            },
        }
        self.downstreams.len() == 0
    }

    /// Marks the region as failed, stops every subscription and adds to
    /// `out` the messages that tell them of `err`.
    pub fn stop(&mut self, err: Error, out: &mut Vec<Effect>)
        ensures
            final(self)@ == old(self)@.stop(err).0,
            views(final(out)@) == views(old(out)@) + old(self)@.stop(err).1,
    {
        self.failed = true;
        let event = err.into_error_event(self.region_id);
        let ghost effects = stop_effects(self.region_id, old(self)@.downstreams, err);
        let mut i: usize = 0;
        assert(views(out@) =~= views(old(out)@) + effects.take(0));
        while i < self.downstreams.len()
            invariant
                i <= self.downstreams.len(),
                self.region_id == old(self).region_id,
                self.observe_id == old(self).observe_id,
                self.lock_tracker == old(self).lock_tracker,
                self.resolved_ts == old(self).resolved_ts,
                self.failed,
                event == err.spec_into_error_event(self.region_id),
                effects == stop_effects(self.region_id, old(self)@.downstreams, err),
                self.downstreams@.len() == old(self).downstreams@.len(),
                forall|j: int|
                    0 <= j < i ==> (#[trigger] self.downstreams@[j])@ == (DownstreamView {
                        state: DownstreamState::Stopped,
                        ..old(self).downstreams@[j]@
                    }),
                forall|j: int|
                    i <= j < self.downstreams.len() ==> self.downstreams@[j] == old(
                        self,
                    ).downstreams@[j],
                views(out@) == views(old(out)@) + effects.take(i as int),
            decreases self.downstreams.len() - i,
        {
            let ghost before = views(out@);
            self.downstreams[i].state = DownstreamState::Stopped;
            let effect = Effect::send_error(
                self.downstreams[i].conn_id,
                self.region_id,
                self.downstreams[i].req_id,
                event,
            );
            out.push(effect);
            assert(effect@ == effects[i as int]);
            assert(views(out@) =~= before.push(effect@));
            assert(effects.take(i + 1) =~= effects.take(i as int).push(effects[i as int]));
            assert(views(out@) =~= views(old(out)@) + effects.take(i + 1));
            i += 1;
        }
        assert(effects.take(i as int) =~= effects);
        assert(self@.downstreams =~= stopped(old(self)@.downstreams));
    }

    /// Begins to keep lock changes for the first scan, and says whether
    /// it did.
    pub fn init_lock_tracker(&mut self) -> (r: bool)
        ensures
            final(self)@ == old(self)@.init_lock_tracker(),
            r == (old(self)@.lock_tracker == LockTrackerView::Pending),
    {
        self.lock_tracker.init()
    }

    /// Installs the locks that the scan has read at `epoch`, and returns
    /// the subscriptions that were made at another epoch. On an error
    /// nothing changes.
    pub fn finish_scan_locks(&mut self, epoch: RegionEpoch, locks: Vec<KeyLock>) -> (r: Result<
        Vec<FailedDownstream>,
        Error,
    >)
        ensures
            match old(self)@.finish_scan_locks(epoch, views(locks@)) {
                Ok(d) => final(self)@ == d && (r matches Ok(failed) && failed@ == old(
                    self,
                )@.failed_on_finish(epoch)),
                Err(e) => final(self)@ == old(self)@ && r == Err::<Vec<FailedDownstream>, Error>(e),
            },
    {
        let was_prepared = self.lock_tracker.is_prepared();
        match self.lock_tracker.finish(epoch, locks) {
            Ok(()) => {},
            Err(e) => {
                return Err(e);
            },
        }
        let mut failed: Vec<FailedDownstream> = Vec::new();
        if was_prepared {
            return Ok(failed);
        }
        let mut i: usize = 0;
        assert(self@.downstreams.skip(0) =~= self@.downstreams);
        while i < self.downstreams.len()
            invariant
                i <= self.downstreams.len(),
                stale_downstreams(self@.downstreams.skip(i as int), epoch, failed@) == stale_downstreams(
                    self@.downstreams,
                    epoch,
                    Seq::empty(),
                ),
            decreases self.downstreams.len() - i,
        {
            let ghost rest = self@.downstreams.skip(i as int);
            assert(rest.first() == self.downstreams@[i as int]@);
            assert(rest.drop_first() =~= self@.downstreams.skip(i + 1));
            let d = &self.downstreams[i];
            if d.region_epoch.version != epoch.version {
                failed.push(
                    FailedDownstream {
                        conn_id: d.conn_id,
                        req_id: d.req_id,
                        downstream_id: d.id,
                        err: Error::Request(RegionError::EpochNotMatch { current: epoch }),
                    },
                );
            }
            i += 1;
        }
        assert(self@.downstreams.skip(i as int).len() == 0);
        Ok(failed)
    }

    /// Adds to `out` the messages that carry `rows` to the subscriptions.
    fn sink_rows(&self, rows: &Vec<Row>, out: &mut Vec<Effect>)
        ensures
            views(final(out)@) == fan_out(
                self@.region_id,
                self@.downstreams,
                views(rows@),
                views(old(out)@),
            ),
    {
        let mut i: usize = 0;
        assert(self@.downstreams.skip(0) =~= self@.downstreams);
        while i < self.downstreams.len()
            invariant
                i <= self.downstreams.len(),
                fan_out(self@.region_id, self@.downstreams.skip(i as int), views(rows@), views(out@))
                    == fan_out(self@.region_id, self@.downstreams, views(rows@), views(old(out)@)),
            decreases self.downstreams.len() - i,
        {
            let ghost rest = self@.downstreams.skip(i as int);
            let ghost before = views(out@);
            assert(rest.first() == self.downstreams@[i as int]@);
            assert(rest.drop_first() =~= self@.downstreams.skip(i + 1));
            let d = &self.downstreams[i];
            if d.state.ready_for_change_events() {
                let mine = rows_for(rows, d);
                if mine.len() > 0 {
                    let effect = Effect::Send {
                        conn_id: d.conn_id,
                        event: CdcEvent::Event(
                            Event {
                                region_id: self.region_id,
                                request_id: d.req_id.0,
                                event: EventKind::Entries(mine),
                            },
                        ),
                    };
                    out.push(effect);
                    assert(views(out@) =~= before.push(effect@));
                }
            }
            i += 1;
        }
        assert(self@.downstreams.skip(i as int).len() == 0);
    }

    /// Applies the rows to the lock table.
    fn track_rows(&mut self, rows: &Vec<Row>) -> (r: Result<(), Error>)
        ensures
            final(self)@ == (DelegateView {
                lock_tracker: apply_rows(old(self)@.lock_tracker, views(rows@)).0,
                ..old(self)@
            }),
            r == apply_rows(old(self)@.lock_tracker, views(rows@)).1,
    {
        let mut i: usize = 0;
        assert(views(rows@).skip(0) =~= views(rows@));
        while i < rows.len()
            invariant
                i <= rows.len(),
                self@ == (DelegateView { lock_tracker: self@.lock_tracker, ..old(self)@ }),
                apply_rows(self@.lock_tracker, views(rows@).skip(i as int)) == apply_rows(
                    old(self)@.lock_tracker,
                    views(rows@),
                ),
            decreases rows.len() - i,
        {
            let ghost rest = views(rows@).skip(i as int);
            assert(rest.first() == rows@[i as int]@);
            assert(rest.drop_first() =~= views(rows@).skip(i + 1));
            match self.lock_tracker.change(lock_change(&rows[i])) {
                Ok(()) => {},
                Err(e) => {
                    return Err(e);
                },
            }
            i += 1;
        }
        assert(views(rows@).skip(i as int).len() == 0);
        Ok(())
    }

    /// Applies a batch of commands: changes of keys go to the lock table
    /// and, as messages added to `out`, to the subscriptions. The first
    /// command that cannot be applied ends it with its error.
    #[verifier::loop_isolation(false)]
    pub fn on_batch(&mut self, batch: &CmdBatch, out: &mut Vec<Effect>) -> (r: Result<(), Error>)
        ensures
            final(self)@ == old(self)@.on_batch(batch@, views(old(out)@)).0,
            views(final(out)@) == old(self)@.on_batch(batch@, views(old(out)@)).1,
            r == old(self)@.on_batch(batch@, views(old(out)@)).2,
    {
        if batch.observe_id != self.observe_id {
            return Ok(());
        }
        let mut i: usize = 0;
        assert(batch@.cmds.skip(0) =~= batch@.cmds);
        while i < batch.cmds.len()
            invariant
                i <= batch.cmds.len(),
                self@.apply_cmds(batch@.cmds.skip(i as int), views(out@)) == old(self)@.apply_cmds(
                    batch@.cmds,
                    views(old(out)@),
                ),
            decreases batch.cmds.len() - i,
        {
            let ghost rest = batch@.cmds.skip(i as int);
            assert(rest.first() == batch.cmds@[i as int]@);
            assert(rest.drop_first() =~= batch@.cmds.skip(i + 1));
            match &batch.cmds[i] {
                Cmd::Failed(e) => {
                    return Err(Error::Request(*e));
                },
                Cmd::RegionChanged { current } => {
                    return Err(Error::Request(RegionError::EpochNotMatch { current: *current }));
                },
                Cmd::Admin => {},
                Cmd::Data(rows) => {
                    match self.track_rows(rows) {
                        Ok(()) => {
                            self.sink_rows(rows, out);
                        },
                        Err(e) => {
                            return Err(e);
                        },
                    }
                },
            }
            i += 1;
        }
        assert(batch@.cmds.skip(i as int).len() == 0);
        Ok(())
    }

    /// Moves the region to the timestamp up to which it can be resolved,
    /// and enters that timestamp into the cycle for each of its
    /// subscriptions. A region that cannot move without going back
    /// enters the counts only.
    pub fn on_min_ts(&mut self, min_ts: TimeStamp, connections: &Vec<Conn>, advance: &mut Advance)
        ensures
            final(self)@ == old(self)@.advanced(min_ts),
            final(advance)@ == old(self)@.on_min_ts(min_ts, views(connections@), old(advance)@),
    {
        if !self.lock_tracker.is_prepared() {
            return ;
        }
        let min_lock = self.lock_tracker.min_ts();
        let (candidate, blocked) = match min_lock {
            Some(m) => if m < min_ts.0 {
                (m, true)
            } else {
                (min_ts.0, false)
            },
            None => (min_ts.0, false),
        };
        let ts = if candidate >= self.resolved_ts.0 {
            self.resolved_ts = TimeStamp(candidate);
            Some(candidate)
        } else {
            None
        };
        let mut i: usize = 0;
        assert(self@.downstreams.skip(0) =~= self@.downstreams);
        while i < self.downstreams.len()
            invariant
                i <= self.downstreams.len(),
                self@.downstreams == old(self)@.downstreams,
                advance_downstreams(
                    self@.region_id,
                    self@.downstreams.skip(i as int),
                    ts,
                    blocked,
                    views(connections@),
                    advance@,
                ) == advance_downstreams(
                    self@.region_id,
                    self@.downstreams,
                    ts,
                    blocked,
                    views(connections@),
                    old(advance)@,
                ),
            decreases self.downstreams.len() - i,
        {
            let ghost rest = self@.downstreams.skip(i as int);
            assert(rest.first() == self.downstreams@[i as int]@);
            assert(rest.drop_first() =~= self@.downstreams.skip(i + 1));
            let d = &self.downstreams[i];
            if !d.state.ready_for_advancing_ts() {
                advance.blocked_on_scan = inc(advance.blocked_on_scan);
            } else {
                advance.scan_finished = inc(advance.scan_finished);
                if blocked {
                    advance.blocked_on_locks = inc(advance.blocked_on_locks);
                }
                match (find_conn(connections, d.conn_id), ts) {
                    (Some(c), Some(t)) => {
                        assert(views(connections@)[c as int] == connections@[c as int]@);
                        advance.record(
                            connections[c].features(),
                            d.conn_id,
                            d.req_id,
                            self.region_id,
                            TimeStamp(t),
                        );
                    },
                    _ => {},
                }
            }
            i += 1;
        }
        assert(self@.downstreams.skip(i as int).len() == 0);
    }

    pub fn summary(&self) -> (r: crate::effect::DelegateSummary)
        ensures
            r == self@.summary(),
    {
        crate::effect::DelegateSummary {
            observe_id: self.observe_id,
            downstreams: self.downstreams.len(),
            failed: self.failed,
        }
    }
}

} // verus!
