//! One resolution cycle outside the engine, step by step: wait, fetch a
//! timestamp, have the regions' leadership confirmed, hand the result to
//! the engine, and ask for the next cycle. The waiting and the asking is
//! done by the surroundings; what to do next is decided here.

use vstd::prelude::*;
use crate::effect::MinTsRound;
use crate::timestamp::TimeStamp;
use crate::version::Version;

verus! {

/// How the regions' leadership is confirmed.
#[derive(Clone, Copy, Debug, PartialEq, Eq, Structural)]
pub enum ResolveMethod {
    /// By asking the regions themselves.
    Raft,
    /// By asking the stores that hold their peers.
    Store,
}

/// What the scheduler of the engine's messages said of a message.
#[derive(Clone, Copy, Debug, PartialEq, Eq, Structural)]
pub enum ScheduleResult {
    Scheduled,
    /// The scheduler has shut down.
    Stopped,
    /// The scheduler takes no more messages.
    Full,
}

/// Where a cycle stands.
#[derive(Clone, Copy, Debug, PartialEq, Eq, Structural)]
pub enum Phase {
    /// The timer runs.
    Waiting,
    /// The timestamp has been asked for.
    FetchingTs,
    /// The leadership check runs.
    Resolving,
    /// The result is on its way to the engine.
    SchedulingMinTs,
    /// The next cycle has been asked for.
    Rearming,
    /// The cycle is over.
    Finished,
    /// The cycle could not hand on what it had to, and nothing will
    /// advance resolved timestamps any more.
    Failed,
}

/// A cycle.
#[derive(Clone, Copy, Debug, PartialEq, Eq, Structural)]
pub struct Cycle {
    pub phase: Phase,
    pub hibernate_regions_compatible: bool,
    pub advance_ts_interval: u64,
    pub causal_ts: bool,
    /// The timestamp up to which regions may be resolved.
    pub min_ts: TimeStamp,
    /// The timestamp that was fetched.
    pub current_ts: TimeStamp,
}

/// What has happened.
#[derive(Clone, Copy, Debug, PartialEq, Eq, Structural)]
pub enum CycleEvent {
    TimerFired,
    /// The timestamp that was fetched, if one was; after it was made
    /// known to the transaction layer, the least start timestamp of the
    /// locks that this layer holds in memory, if it holds one; and the
    /// version that the cluster runs.
    Timestamp { tso: Option<TimeStamp>, min_mem_lock_ts: Option<TimeStamp>, cluster_version: Version },
    /// The leadership check is done; `any_region` says whether it has
    /// confirmed a region.
    Resolved { any_region: bool },
    /// The scheduler's answer to the last message.
    Scheduled(ScheduleResult),
}

/// What is to be done next.
#[derive(Clone, Copy, Debug, PartialEq, Eq, Structural)]
pub enum CycleAction {
    /// Nothing: the event does not belong to the phase.
    Ignore,
    Wait { ms: u64 },
    /// Fetch a timestamp, from the provider of causal timestamps if
    /// `causal`, else from the oracle.
    FetchTimestamp { causal: bool },
    /// Have the leadership of the cycle's regions confirmed at `min_ts`.
    Resolve { method: ResolveMethod, min_ts: TimeStamp, advance_ts_interval: u64 },
    /// Send the confirmed regions to the engine, with these timestamps.
    ScheduleMinTs { min_ts: TimeStamp, current_ts: TimeStamp },
    /// Ask the engine for the next cycle.
    Rearm,
    /// Nothing more, the cycle is over.
    Done,
    /// Give up loudly.
    Abort,
}

/// The release from which stores can confirm leadership.
pub open spec fn resolved_ts_store_version() -> (u64, u64, u64) {
    (5, 0, 0)
}

/// The method by which leadership is confirmed: by the stores where the
/// settings allow it and the cluster is recent enough, else by the
/// regions.
pub open spec fn spec_resolve_method(hibernate_regions_compatible: bool, cluster_version: Version) -> ResolveMethod {
    if hibernate_regions_compatible && cluster_version.spec_reaches(5, 0, 0) {
        ResolveMethod::Store
    } else {
        ResolveMethod::Raft
    }
}

/// The timestamp up to which regions may be resolved: the one that was
/// fetched, zero if none was, or the least start timestamp of a lock in
/// memory if that is less.
pub open spec fn spec_candidate(tso: Option<TimeStamp>, min_mem_lock_ts: Option<TimeStamp>) -> TimeStamp {
    let fetched = match tso {
        Some(t) => t,
        None => TimeStamp(0),
    };
    match min_mem_lock_ts {
        Some(l) if l.0 < fetched.0 => l,
        _ => fetched,
    }
}

/// Whether the scheduler's answer lets the cycle go on: it does unless
/// the message was refused by a scheduler that still runs.
pub open spec fn spec_acceptable(result: ScheduleResult) -> bool {
    result != ScheduleResult::Full
}

pub fn resolve_method(hibernate_regions_compatible: bool, cluster_version: &Version) -> (r: ResolveMethod)
    ensures
        r == spec_resolve_method(hibernate_regions_compatible, *cluster_version),
{
    if hibernate_regions_compatible && cluster_version.reaches(5, 0, 0) {
        ResolveMethod::Store
    } else {
        ResolveMethod::Raft
    }
}

pub fn candidate(tso: Option<TimeStamp>, min_mem_lock_ts: Option<TimeStamp>) -> (r: TimeStamp)
    ensures
        r == spec_candidate(tso, min_mem_lock_ts),
{
    let fetched = match tso {
        Some(t) => t,
        None => TimeStamp(0),
    };
    match min_mem_lock_ts {
        Some(l) => if l.0 < fetched.0 {
            l
        } else {
            fetched
        },
        None => fetched,
    }
}

impl Cycle {
    /// The cycle at its start, for the given round.
    pub open spec fn spec_start(wait_ms: u64, hibernate_regions_compatible: bool, advance_ts_interval: u64, causal_ts: bool) -> (
        Cycle,
        CycleAction,
    ) {
        (
            Cycle {
                phase: Phase::Waiting,
                hibernate_regions_compatible,
                advance_ts_interval,
                causal_ts,
                min_ts: TimeStamp(0),
                current_ts: TimeStamp(0),
            },
            CycleAction::Wait { ms: wait_ms },
        )
    }

    /// The cycle after an event, with what is to be done next. An event
    /// that does not belong to the phase changes nothing.
    pub open spec fn spec_step(self, event: CycleEvent) -> (Cycle, CycleAction) {
        match (self.phase, event) {
            (Phase::Waiting, CycleEvent::TimerFired) => (
                Cycle { phase: Phase::FetchingTs, ..self },
                CycleAction::FetchTimestamp { causal: self.causal_ts },
            ),
            (Phase::FetchingTs, CycleEvent::Timestamp { tso, min_mem_lock_ts, cluster_version }) => {
                let min_ts = spec_candidate(tso, min_mem_lock_ts);
                (
                    Cycle {
                        phase: Phase::Resolving,
                        min_ts,
                        current_ts: spec_candidate(tso, None),
                        ..self
                    },
                    CycleAction::Resolve {
                        method: spec_resolve_method(
                            self.hibernate_regions_compatible,
                            cluster_version,
                        ),
                        min_ts,
                        advance_ts_interval: self.advance_ts_interval,
                    },
                )
            },
            (Phase::Resolving, CycleEvent::Resolved { any_region }) => if any_region {
                (
                    Cycle { phase: Phase::SchedulingMinTs, ..self },
                    CycleAction::ScheduleMinTs { min_ts: self.min_ts, current_ts: self.current_ts },
                )
            } else {
                (Cycle { phase: Phase::Rearming, ..self }, CycleAction::Rearm)
            },
            (Phase::SchedulingMinTs, CycleEvent::Scheduled(result)) => if spec_acceptable(result) {
                (Cycle { phase: Phase::Rearming, ..self }, CycleAction::Rearm)
            } else {
                (Cycle { phase: Phase::Failed, ..self }, CycleAction::Abort)
            },
            (Phase::Rearming, CycleEvent::Scheduled(result)) => if spec_acceptable(result) {
                (Cycle { phase: Phase::Finished, ..self }, CycleAction::Done)
            } else {
                (Cycle { phase: Phase::Failed, ..self }, CycleAction::Abort)
            },
            _ => (self, CycleAction::Ignore),
        }
    }

    /// Begins a cycle for the round that the engine has asked for.
    pub fn start(round: &MinTsRound) -> (r: (Cycle, CycleAction))
        ensures
            r == Self::spec_start(
                round.wait_ms,
                round.hibernate_regions_compatible,
                round.advance_ts_interval,
                round.causal_ts,
            ),
    {
        (
            Cycle {
                phase: Phase::Waiting,
                hibernate_regions_compatible: round.hibernate_regions_compatible,
                advance_ts_interval: round.advance_ts_interval,
                causal_ts: round.causal_ts,
                min_ts: TimeStamp(0),
                current_ts: TimeStamp(0),
            },
            CycleAction::Wait { ms: round.wait_ms },
        )
    }

    /// Takes an event, and says what is to be done next.
    pub fn step(&mut self, event: CycleEvent) -> (action: CycleAction)
        ensures
            (*final(self), action) == old(self).spec_step(event),
    {
        match (self.phase, event) {
            (Phase::Waiting, CycleEvent::TimerFired) => {
                self.phase = Phase::FetchingTs;
                CycleAction::FetchTimestamp { causal: self.causal_ts }
            },
            (Phase::FetchingTs, CycleEvent::Timestamp { tso, min_mem_lock_ts, cluster_version }) => {
                self.phase = Phase::Resolving;
                self.min_ts = candidate(tso, min_mem_lock_ts);
                self.current_ts = candidate(tso, None);
                CycleAction::Resolve {
                    method: resolve_method(self.hibernate_regions_compatible, &cluster_version),
                    min_ts: self.min_ts,
                    advance_ts_interval: self.advance_ts_interval,
                }
            },
            (Phase::Resolving, CycleEvent::Resolved { any_region }) => {
                if any_region {
                    self.phase = Phase::SchedulingMinTs;
                    CycleAction::ScheduleMinTs { min_ts: self.min_ts, current_ts: self.current_ts }
                } else {
                    self.phase = Phase::Rearming;
                    CycleAction::Rearm
                }
            },
            (Phase::SchedulingMinTs, CycleEvent::Scheduled(result)) => {
                match result {
                    ScheduleResult::Full => {
                        self.phase = Phase::Failed;
                        CycleAction::Abort
                    },
                    _ => {
                        self.phase = Phase::Rearming;
                        CycleAction::Rearm
                    },
                }
            },
            (Phase::Rearming, CycleEvent::Scheduled(result)) => {
                match result {
                    ScheduleResult::Full => {
                        self.phase = Phase::Failed;
                        CycleAction::Abort
                    },
                    _ => {
                        self.phase = Phase::Finished;
                        CycleAction::Done
                    },
                }
            },
            _ => CycleAction::Ignore,
        }
    }
}

/// The timestamp up to which regions may be resolved is never beyond the
/// one that was fetched, nor beyond a lock in memory.
pub proof fn lemma_candidate_bounds(tso: Option<TimeStamp>, min_mem_lock_ts: Option<TimeStamp>)
    ensures
        spec_candidate(tso, min_mem_lock_ts).0 <= spec_candidate(tso, None).0,
        min_mem_lock_ts matches Some(l) ==> spec_candidate(tso, min_mem_lock_ts).0 <= l.0,
{
}

/// A cycle that has confirmed its regions always asks for the next
/// cycle, unless a scheduler that still runs refuses a message: then it
/// fails.
pub proof fn lemma_cycle_rearms(c: Cycle, any_region: bool, first: ScheduleResult, second: ScheduleResult)
    requires
        c.phase == Phase::Resolving,
    ensures
        ({
            let resolved = c.spec_step(CycleEvent::Resolved { any_region });
            if any_region {
                let handed = resolved.0.spec_step(CycleEvent::Scheduled(first));
                &&& resolved.1 == (CycleAction::ScheduleMinTs { min_ts: c.min_ts, current_ts: c.current_ts })
                &&& if first == ScheduleResult::Full {
                    handed.1 == CycleAction::Abort && handed.0.phase == Phase::Failed
                } else {
                    &&& handed.1 == CycleAction::Rearm
                    &&& handed.0.spec_step(CycleEvent::Scheduled(second)).0.phase == if second
                        == ScheduleResult::Full {
                        Phase::Failed
                    } else {
                        Phase::Finished
                    }
                }
            } else {
                resolved.1 == CycleAction::Rearm
            }
        }),
{
}

} // verus!
