//! The protocol features that a connection has, from its version and from
//! what it asked for by name.

use vstd::prelude::*;
use crate::version::Version;

verus! {

/// One protocol feature.
#[derive(Clone, Copy, Debug, PartialEq, Eq, Hash, Structural)]
pub enum Feature {
    /// Resolved timestamps are sent for many regions in one message.
    BatchResolvedTs,
    /// The cluster id of a request is checked against the store's.
    ValidateClusterId,
    /// One region may be subscribed several times on one connection,
    /// under different request ids.
    StreamMultiplexing,
}

/// A set of features.
#[derive(Clone, Copy, Debug, PartialEq, Eq, Hash, Structural)]
pub struct FeatureGate {
    pub batch_resolved_ts: bool,
    pub validate_cluster_id: bool,
    pub stream_multiplexing: bool,
}

impl FeatureGate {
    pub open spec fn spec_empty() -> FeatureGate {
        FeatureGate {
            batch_resolved_ts: false,
            validate_cluster_id: false,
            stream_multiplexing: false,
        }
    }

    pub open spec fn spec_contains(self, feature: Feature) -> bool {
        match feature {
            Feature::BatchResolvedTs => self.batch_resolved_ts,
            Feature::ValidateClusterId => self.validate_cluster_id,
            Feature::StreamMultiplexing => self.stream_multiplexing,
        }
    }

    pub open spec fn spec_with(self, feature: Feature, on: bool) -> FeatureGate {
        match feature {
            Feature::BatchResolvedTs => FeatureGate { batch_resolved_ts: on, ..self },
            Feature::ValidateClusterId => FeatureGate { validate_cluster_id: on, ..self },
            Feature::StreamMultiplexing => FeatureGate { stream_multiplexing: on, ..self },
        }
    }

    /// The features that every client of the given version has: batched
    /// resolved timestamps from 4.0.8, cluster id validation from 5.3.0.
    pub open spec fn spec_default_features(version: Version) -> FeatureGate {
        FeatureGate {
            batch_resolved_ts: version.spec_reaches(4, 0, 8),
            validate_cluster_id: version.spec_reaches(5, 3, 0),
            stream_multiplexing: false,
        }
    }

    pub fn empty() -> (r: FeatureGate)
        ensures
            r == Self::spec_empty(),
    {
        FeatureGate {
            batch_resolved_ts: false,
            validate_cluster_id: false,
            stream_multiplexing: false,
        }
    }

    pub fn contains(&self, feature: Feature) -> (r: bool)
        ensures
            r == self.spec_contains(feature),
    {
        match feature {
            Feature::BatchResolvedTs => self.batch_resolved_ts,
            Feature::ValidateClusterId => self.validate_cluster_id,
            Feature::StreamMultiplexing => self.stream_multiplexing,
        }
    }

    pub fn set(&mut self, feature: Feature, on: bool)
        ensures
            *final(self) == old(self).spec_with(feature, on),
    {
        match feature {
            Feature::BatchResolvedTs => {
                self.batch_resolved_ts = on;
            },
            Feature::ValidateClusterId => {
                self.validate_cluster_id = on;
            },
            Feature::StreamMultiplexing => {
                self.stream_multiplexing = on;
            },
        }
    }

    pub fn default_features(version: &Version) -> (r: FeatureGate)
        ensures
            r == Self::spec_default_features(*version),
    {
        FeatureGate {
            batch_resolved_ts: version.reaches(4, 0, 8),
            validate_cluster_id: version.reaches(5, 3, 0),
            stream_multiplexing: false,
        }
    }

    /// The first version that has batched resolved timestamps.
    pub fn batch_resolved_ts() -> (r: Version)
        ensures
            r == (Version { major: 4, minor: 0, patch: 8, pre_release: false }),
    {
        Version::new(4, 0, 8)
    }

    /// The first version that has its cluster id validated.
    pub fn validate_cluster_id() -> (r: Version)
        ensures
            r == (Version { major: 5, minor: 3, patch: 0, pre_release: false }),
    {
        Version::new(5, 3, 0)
    }
}

/// A version that has its cluster id validated also has batched resolved
/// timestamps.
pub proof fn lemma_default_features_nested(version: Version)
    ensures
        FeatureGate::spec_default_features(version).validate_cluster_id
            ==> FeatureGate::spec_default_features(version).batch_resolved_ts,
{
}

} // verus!
