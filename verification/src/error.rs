//! Errors: what a store answers for a region, what the engine fails with,
//! and what a client is told.

use vstd::prelude::*;
use crate::version::Version;

verus! {

/// The epoch of a region: it changes when the region's members or its key
/// range change.
#[derive(Clone, Copy, Debug, PartialEq, Eq, Hash, Default, Structural)]
pub struct RegionEpoch {
    pub conf_ver: u64,
    pub version: u64,
}

/// Why a store cannot serve a region.
#[derive(Clone, Copy, Debug, PartialEq, Eq, Structural)]
pub enum RegionError {
    NotLeader { region_id: u64 },
    RegionNotFound { region_id: u64 },
    EpochNotMatch { current: RegionEpoch },
    ServerIsBusy,
    StaleCommand,
    Other,
}

/// Why a message could not be handed to a connection's sink.
#[derive(Clone, Copy, Debug, PartialEq, Eq, Structural)]
pub enum SendError {
    Full,
    Disconnected,
    Congested,
}

/// Why the engine gave up on a subscription or on a region.
#[derive(Clone, Copy, Debug, PartialEq, Eq, Structural)]
pub enum Error {
    /// The store refused a command of the region.
    Request(RegionError),
    /// The storage engine failed.
    Rocks,
    /// A message could not be sent.
    Sink(SendError),
    /// The memory quota is used up.
    MemoryQuotaExceeded,
    /// A batch does not fit the state of the lock tracker.
    Corrupted,
    /// Anything else.
    Other,
}

/// Why a client is told that the server is busy.
#[derive(Clone, Copy, Debug, PartialEq, Eq, Structural)]
pub enum BusyReason {
    /// As many incremental scans are pending as the configuration admits.
    TooManyPendingScans,
    /// No observation epoch is left to hand out.
    ObserveIdsExhausted,
}

/// The error that a client receives for one of its subscriptions.
#[derive(Clone, Copy, Debug, PartialEq, Eq, Structural)]
pub enum EventError {
    NotLeader { region_id: u64 },
    RegionNotFound { region_id: u64 },
    EpochNotMatch { current: RegionEpoch },
    DuplicateRequest { region_id: u64 },
    Compatibility { required_version: Version },
    ClusterIdMismatch { current: u64, request: u64 },
    ServerIsBusy { reason: BusyReason },
}

impl Error {
    /// What a client is told of this error on region `region_id`: that the
    /// store is not the leader, that the epoch does not match, and for
    /// every other error that the region is not found.
    pub open spec fn spec_into_error_event(self, region_id: u64) -> EventError {
        match self {
            Error::Request(RegionError::NotLeader { region_id: leaderless }) => EventError::NotLeader {
                region_id: leaderless,
            },
            Error::Request(RegionError::EpochNotMatch { current }) => EventError::EpochNotMatch {
                current,
            },
            _ => EventError::RegionNotFound { region_id },
        }
    }

    pub fn into_error_event(self, region_id: u64) -> (r: EventError)
        ensures
            r == self.spec_into_error_event(region_id),
    {
        match self {
            Error::Request(RegionError::NotLeader { region_id: leaderless }) => EventError::NotLeader {
                region_id: leaderless,
            },
            Error::Request(RegionError::EpochNotMatch { current }) => EventError::EpochNotMatch {
                current,
            },
            _ => EventError::RegionNotFound { region_id },
        }
    }
}

impl BusyReason {
    /// The reason in words, as it is sent to the client.
    pub fn message(&self) -> (r: &'static str)
        ensures
            r@ == match *self {
                BusyReason::TooManyPendingScans => "too many pending incremental scans"@,
                BusyReason::ObserveIdsExhausted => "no observation epoch left"@,
            },
    {
        match self {
            BusyReason::TooManyPendingScans => "too many pending incremental scans",
            BusyReason::ObserveIdsExhausted => "no observation epoch left",
        }
    }
}

} // verus!
