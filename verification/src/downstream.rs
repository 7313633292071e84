//! One subscription of a region, and its lifecycle.

use vstd::prelude::*;
use crate::error::RegionEpoch;
use crate::ids::{ConnId, DownstreamId, RequestId};
use crate::keys::{ObservedRange, ObservedRangeView};

verus! {

/// The kind of keys that a request asks for.
#[derive(Clone, Copy, Debug, PartialEq, Eq, Default, Structural)]
pub enum KvApi {
    #[default]
    TiDb,
    RawKv,
    TxnKv,
}

/// The key encoding that the store runs with.
#[derive(Clone, Copy, Debug, PartialEq, Eq, Structural)]
pub enum ApiVersion {
    V1,
    V1ttl,
    V2,
}

/// Whether a store with the given encoding can serve the given kind of
/// keys: table keys always, raw keys on the second encoding only, and
/// transactional keys never.
pub open spec fn spec_validate_kv_api(kv_api: KvApi, api_version: ApiVersion) -> bool {
    kv_api == KvApi::TiDb || (kv_api == KvApi::RawKv && api_version == ApiVersion::V2)
}

pub fn validate_kv_api(kv_api: KvApi, api_version: ApiVersion) -> (r: bool)
    ensures
        r == spec_validate_kv_api(kv_api, api_version),
{
    match kv_api {
        KvApi::TiDb => true,
        KvApi::RawKv => match api_version {
            ApiVersion::V2 => true,
            _ => false,
        },
        KvApi::TxnKv => false,
    }
}

/// Where a subscription stands.
///
/// The legal moves are `Uninitialized` to `Initializing` when the scan of
/// the region is handed out, `Initializing` to `Normal` when the scan
/// reports back, and from anywhere to `Stopped`. A move that is asked for
/// from another state leaves the state as it is.
#[derive(Clone, Copy, Debug, PartialEq, Eq, Structural)]
pub enum DownstreamState {
    /// Created, nothing sent yet.
    Uninitialized,
    /// The incremental scan is under way; changes are sent already.
    Initializing,
    /// Changes and resolved timestamps are sent.
    Normal,
    /// The subscription is over.
    Stopped,
}

impl DownstreamState {
    pub open spec fn spec_ready_for_change_events(self) -> bool {
        self == DownstreamState::Initializing || self == DownstreamState::Normal
    }

    pub open spec fn spec_ready_for_advancing_ts(self) -> bool {
        self == DownstreamState::Normal
    }

    /// The state after the scan has been handed out.
    pub open spec fn spec_start_scan(self) -> DownstreamState {
        if self == DownstreamState::Uninitialized {
            DownstreamState::Initializing
        } else {
            self
        }
    }

    /// The state after the scan has reported back.
    pub open spec fn spec_finish_scan(self) -> DownstreamState {
        if self == DownstreamState::Initializing {
            DownstreamState::Normal
        } else {
            self
        }
    }

    pub fn ready_for_change_events(&self) -> (r: bool)
        ensures
            r == self.spec_ready_for_change_events(),
    {
        match self {
            DownstreamState::Initializing | DownstreamState::Normal => true,
            DownstreamState::Uninitialized | DownstreamState::Stopped => false,
        }
    }

    pub fn ready_for_advancing_ts(&self) -> (r: bool)
        ensures
            r == self.spec_ready_for_advancing_ts(),
    {
        match self {
            DownstreamState::Normal => true,
            _ => false,
        }
    }

    /// Moves from `Uninitialized` to `Initializing`, and says whether it
    /// did.
    pub fn start_scan(&mut self) -> (moved: bool)
        ensures
            *final(self) == old(self).spec_start_scan(),
            moved == (*old(self) == DownstreamState::Uninitialized),
    {
        match self {
            DownstreamState::Uninitialized => {
                *self = DownstreamState::Initializing;
                true
            },
            _ => false,
        }
    }

    /// Moves from `Initializing` to `Normal`, and says whether it did.
    pub fn finish_scan(&mut self) -> (moved: bool)
        ensures
            *final(self) == old(self).spec_finish_scan(),
            moved == (*old(self) == DownstreamState::Initializing),
    {
        match self {
            DownstreamState::Initializing => {
                *self = DownstreamState::Normal;
                true
            },
            _ => false,
        }
    }

    /// Ends the subscription.
    pub fn stop(&mut self)
        ensures
            *final(self) == DownstreamState::Stopped,
    {
        *self = DownstreamState::Stopped;
    }
}

/// No move leads out of `Stopped`, and none leads back to
/// `Uninitialized`.
pub proof fn lemma_state_moves(s: DownstreamState)
    ensures
        s == DownstreamState::Stopped ==> s.spec_start_scan() == s && s.spec_finish_scan() == s,
        s != DownstreamState::Uninitialized ==> s.spec_start_scan() == s,
        s.spec_start_scan() != DownstreamState::Uninitialized,
        s != DownstreamState::Uninitialized ==> s.spec_finish_scan() != DownstreamState::Uninitialized,
{
}

/// One subscription: a request of a connection that watches a range of
/// keys of a region.
#[derive(Clone, Debug, PartialEq, Eq)]
pub struct Downstream {
    pub id: DownstreamId,
    pub conn_id: ConnId,
    pub req_id: RequestId,
    /// The epoch of the region as the client knows it.
    pub region_epoch: RegionEpoch,
    pub kv_api: KvApi,
    /// Whether changes that the client wrote itself are left out.
    pub filter_loop: bool,
    pub observed_range: ObservedRange,
    pub state: DownstreamState,
}

pub struct DownstreamView {
    pub id: DownstreamId,
    pub conn_id: ConnId,
    pub req_id: RequestId,
    pub region_epoch: RegionEpoch,
    pub kv_api: KvApi,
    pub filter_loop: bool,
    pub observed_range: ObservedRangeView,
    pub state: DownstreamState,
}

impl View for Downstream {
    type V = DownstreamView;

    open spec fn view(&self) -> DownstreamView {
        DownstreamView {
            id: self.id,
            conn_id: self.conn_id,
            req_id: self.req_id,
            region_epoch: self.region_epoch,
            kv_api: self.kv_api,
            filter_loop: self.filter_loop,
            observed_range: self.observed_range@,
            state: self.state,
        }
    }
}

impl Downstream {
    /// A subscription that has not started yet.
    pub fn new(
        id: DownstreamId,
        region_epoch: RegionEpoch,
        req_id: RequestId,
        conn_id: ConnId,
        kv_api: KvApi,
        filter_loop: bool,
        observed_range: ObservedRange,
    ) -> (r: Downstream)
        ensures
            r@ == (DownstreamView {
                id,
                conn_id,
                req_id,
                region_epoch,
                kv_api,
                filter_loop,
                observed_range: observed_range@,
                state: DownstreamState::Uninitialized,
            }),
    {
        Downstream {
            id,
            conn_id,
            req_id,
            region_epoch,
            kv_api,
            filter_loop,
            observed_range,
            state: DownstreamState::Uninitialized,
        }
    }

    pub fn get_state(&self) -> (r: DownstreamState)
        ensures
            r == self@.state,
    {
        self.state
    }

    pub fn set_state(&mut self, state: DownstreamState)
        ensures
            final(self)@ == (DownstreamView { state, ..old(self)@ }),
    {
        self.state = state;
    }
}

} // verus!
