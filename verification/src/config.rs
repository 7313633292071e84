//! The settings of the engine that can be changed while it runs.

use vstd::prelude::*;

verus! {

pub const DEFAULT_MIN_TS_INTERVAL_MS: u64 = 1000;

pub const DEFAULT_INCREMENTAL_SCAN_THREADS: usize = 4;

pub const DEFAULT_INCREMENTAL_SCAN_CONCURRENCY: usize = 6;

pub const DEFAULT_INCREMENTAL_SCAN_CONCURRENCY_LIMIT: usize = 10000;

pub const DEFAULT_INCREMENTAL_SCAN_SPEED_LIMIT: u64 = 134217728;

pub const DEFAULT_INCREMENTAL_FETCH_SPEED_LIMIT: u64 = 536870912;

pub const DEFAULT_MEMORY_QUOTA: u64 = 536870912;

/// The settings.
#[derive(Clone, Copy, Debug, PartialEq, Eq, Structural)]
pub struct CdcConfig {
    /// The time between two resolution cycles, in milliseconds.
    pub min_ts_interval: u64,
    /// Whether regions that hibernate are resolved through the stores'
    /// leadership check.
    pub hibernate_regions_compatible: bool,
    /// The number of threads that run incremental scans.
    pub incremental_scan_threads: usize,
    /// The number of incremental scans that run at a time.
    pub incremental_scan_concurrency: usize,
    /// The number of incremental scans that may be pending; a
    /// registration beyond it is refused.
    pub incremental_scan_concurrency_limit: usize,
    /// Bytes a second that scans may read; zero is no limit.
    pub incremental_scan_speed_limit: u64,
    /// Bytes a second that scans may fetch; zero is no limit.
    pub incremental_fetch_speed_limit: u64,
    /// The number of threads that fetch timestamps.
    pub tso_worker_threads: usize,
    /// The bytes that events waiting in sinks may take.
    pub sink_memory_quota: u64,
    /// The bytes that the cache of old values may take.
    pub old_value_cache_memory_quota: u64,
}

/// New values for some of the settings.
#[derive(Clone, Copy, Debug, PartialEq, Eq, Structural)]
pub struct ConfigChange {
    pub min_ts_interval: Option<u64>,
    pub hibernate_regions_compatible: Option<bool>,
    pub incremental_scan_threads: Option<usize>,
    pub incremental_scan_concurrency: Option<usize>,
    pub incremental_scan_concurrency_limit: Option<usize>,
    pub incremental_scan_speed_limit: Option<u64>,
    pub incremental_fetch_speed_limit: Option<u64>,
    pub tso_worker_threads: Option<usize>,
    pub sink_memory_quota: Option<u64>,
    pub old_value_cache_memory_quota: Option<u64>,
}

/// The new value, or the old one where there is no new one.
pub open spec fn pick<T>(new: Option<T>, old: T) -> T {
    match new {
        Some(v) => v,
        None => old,
    }
}

/// The new value where it differs from the old one.
pub open spec fn changed<T>(old: T, new: T) -> Option<T> {
    if old == new {
        None
    } else {
        Some(new)
    }
}

impl ConfigChange {
    pub open spec fn spec_none() -> ConfigChange {
        ConfigChange {
            min_ts_interval: None,
            hibernate_regions_compatible: None,
            incremental_scan_threads: None,
            incremental_scan_concurrency: None,
            incremental_scan_concurrency_limit: None,
            incremental_scan_speed_limit: None,
            incremental_fetch_speed_limit: None,
            tso_worker_threads: None,
            sink_memory_quota: None,
            old_value_cache_memory_quota: None,
        }
    }

    /// The change that changes nothing.
    pub fn none() -> (r: ConfigChange)
        ensures
            r == Self::spec_none(),
    {
        ConfigChange {
            min_ts_interval: None,
            hibernate_regions_compatible: None,
            incremental_scan_threads: None,
            incremental_scan_concurrency: None,
            incremental_scan_concurrency_limit: None,
            incremental_scan_speed_limit: None,
            incremental_fetch_speed_limit: None,
            tso_worker_threads: None,
            sink_memory_quota: None,
            old_value_cache_memory_quota: None,
        }
    }
}

impl CdcConfig {
    pub open spec fn spec_default() -> CdcConfig {
        CdcConfig {
            min_ts_interval: DEFAULT_MIN_TS_INTERVAL_MS,
            hibernate_regions_compatible: true,
            incremental_scan_threads: DEFAULT_INCREMENTAL_SCAN_THREADS,
            incremental_scan_concurrency: DEFAULT_INCREMENTAL_SCAN_CONCURRENCY,
            incremental_scan_concurrency_limit: DEFAULT_INCREMENTAL_SCAN_CONCURRENCY_LIMIT,
            incremental_scan_speed_limit: DEFAULT_INCREMENTAL_SCAN_SPEED_LIMIT,
            incremental_fetch_speed_limit: DEFAULT_INCREMENTAL_FETCH_SPEED_LIMIT,
            tso_worker_threads: 1,
            sink_memory_quota: DEFAULT_MEMORY_QUOTA,
            old_value_cache_memory_quota: DEFAULT_MEMORY_QUOTA,
        }
    }

    /// The settings with the new values of `change`.
    pub open spec fn spec_update(self, change: ConfigChange) -> CdcConfig {
        CdcConfig {
            min_ts_interval: pick(change.min_ts_interval, self.min_ts_interval),
            hibernate_regions_compatible: pick(
                change.hibernate_regions_compatible,
                self.hibernate_regions_compatible,
            ),
            incremental_scan_threads: pick(
                change.incremental_scan_threads,
                self.incremental_scan_threads,
            ),
            incremental_scan_concurrency: pick(
                change.incremental_scan_concurrency,
                self.incremental_scan_concurrency,
            ),
            incremental_scan_concurrency_limit: pick(
                change.incremental_scan_concurrency_limit,
                self.incremental_scan_concurrency_limit,
            ),
            incremental_scan_speed_limit: pick(
                change.incremental_scan_speed_limit,
                self.incremental_scan_speed_limit,
            ),
            incremental_fetch_speed_limit: pick(
                change.incremental_fetch_speed_limit,
                self.incremental_fetch_speed_limit,
            ),
            tso_worker_threads: pick(change.tso_worker_threads, self.tso_worker_threads),
            sink_memory_quota: pick(change.sink_memory_quota, self.sink_memory_quota),
            old_value_cache_memory_quota: pick(
                change.old_value_cache_memory_quota,
                self.old_value_cache_memory_quota,
            ),
        }
    }

    /// What has to change in these settings to arrive at `other`.
    pub open spec fn spec_diff(self, other: CdcConfig) -> ConfigChange {
        ConfigChange {
            min_ts_interval: changed(self.min_ts_interval, other.min_ts_interval),
            hibernate_regions_compatible: changed(
                self.hibernate_regions_compatible,
                other.hibernate_regions_compatible,
            ),
            incremental_scan_threads: changed(
                self.incremental_scan_threads,
                other.incremental_scan_threads,
            ),
            incremental_scan_concurrency: changed(
                self.incremental_scan_concurrency,
                other.incremental_scan_concurrency,
            ),
            incremental_scan_concurrency_limit: changed(
                self.incremental_scan_concurrency_limit,
                other.incremental_scan_concurrency_limit,
            ),
            incremental_scan_speed_limit: changed(
                self.incremental_scan_speed_limit,
                other.incremental_scan_speed_limit,
            ),
            incremental_fetch_speed_limit: changed(
                self.incremental_fetch_speed_limit,
                other.incremental_fetch_speed_limit,
            ),
            tso_worker_threads: changed(self.tso_worker_threads, other.tso_worker_threads),
            sink_memory_quota: changed(self.sink_memory_quota, other.sink_memory_quota),
            old_value_cache_memory_quota: changed(
                self.old_value_cache_memory_quota,
                other.old_value_cache_memory_quota,
            ),
        }
    }

    /// Whether the settings can be used as they are.
    pub open spec fn valid(self, raftstore_v2: bool) -> bool {
        &&& self.min_ts_interval > 0
        &&& self.incremental_scan_threads > 0
        &&& self.incremental_scan_concurrency >= self.incremental_scan_threads
        &&& raftstore_v2 ==> !self.hibernate_regions_compatible
    }

    /// The settings made valid: an interval of zero and a thread count of
    /// zero become the default, a scan concurrency below the number of
    /// scan threads becomes that number, and the second generation of the
    /// store does without the leadership check for hibernating regions.
    pub open spec fn spec_validate(self, raftstore_v2: bool) -> CdcConfig {
        let min_ts_interval = if self.min_ts_interval == 0 {
            DEFAULT_MIN_TS_INTERVAL_MS
        } else {
            self.min_ts_interval
        };
        let incremental_scan_threads = if self.incremental_scan_threads == 0 {
            DEFAULT_INCREMENTAL_SCAN_THREADS
        } else {
            self.incremental_scan_threads
        };
        let incremental_scan_concurrency = if self.incremental_scan_concurrency
            < incremental_scan_threads {
            incremental_scan_threads
        } else {
            self.incremental_scan_concurrency
        };
        CdcConfig {
            min_ts_interval,
            incremental_scan_threads,
            incremental_scan_concurrency,
            hibernate_regions_compatible: self.hibernate_regions_compatible && !raftstore_v2,
            ..self
        }
    }

    pub fn default_config() -> (r: CdcConfig)
        ensures
            r == Self::spec_default(),
    {
        CdcConfig {
            min_ts_interval: DEFAULT_MIN_TS_INTERVAL_MS,
            hibernate_regions_compatible: true,
            incremental_scan_threads: DEFAULT_INCREMENTAL_SCAN_THREADS,
            incremental_scan_concurrency: DEFAULT_INCREMENTAL_SCAN_CONCURRENCY,
            incremental_scan_concurrency_limit: DEFAULT_INCREMENTAL_SCAN_CONCURRENCY_LIMIT,
            incremental_scan_speed_limit: DEFAULT_INCREMENTAL_SCAN_SPEED_LIMIT,
            incremental_fetch_speed_limit: DEFAULT_INCREMENTAL_FETCH_SPEED_LIMIT,
            tso_worker_threads: 1,
            sink_memory_quota: DEFAULT_MEMORY_QUOTA,
            old_value_cache_memory_quota: DEFAULT_MEMORY_QUOTA,
        }
    }

    /// Takes over the new values of `change`.
    pub fn update(&mut self, change: ConfigChange)
        ensures
            *final(self) == old(self).spec_update(change),
    {
        if let Some(v) = change.min_ts_interval {
            self.min_ts_interval = v;
        }
        if let Some(v) = change.hibernate_regions_compatible {
            self.hibernate_regions_compatible = v;
        }
        if let Some(v) = change.incremental_scan_threads {
            self.incremental_scan_threads = v;
        }
        if let Some(v) = change.incremental_scan_concurrency {
            self.incremental_scan_concurrency = v;
        }
        if let Some(v) = change.incremental_scan_concurrency_limit {
            self.incremental_scan_concurrency_limit = v;
        }
        if let Some(v) = change.incremental_scan_speed_limit {
            self.incremental_scan_speed_limit = v;
        }
        if let Some(v) = change.incremental_fetch_speed_limit {
            self.incremental_fetch_speed_limit = v;
        }
        if let Some(v) = change.tso_worker_threads {
            self.tso_worker_threads = v;
        }
        if let Some(v) = change.sink_memory_quota {
            self.sink_memory_quota = v;
        }
        if let Some(v) = change.old_value_cache_memory_quota {
            self.old_value_cache_memory_quota = v;
        }
    }

    /// What has to change in these settings to arrive at `other`.
    pub fn diff(&self, other: &CdcConfig) -> (r: ConfigChange)
        ensures
            r == self.spec_diff(*other),
    {
        ConfigChange {
            min_ts_interval: if self.min_ts_interval == other.min_ts_interval {
                None
            } else {
                Some(other.min_ts_interval)
            },
            hibernate_regions_compatible: if self.hibernate_regions_compatible
                == other.hibernate_regions_compatible {
                None
            } else {
                Some(other.hibernate_regions_compatible)
            },
            incremental_scan_threads: if self.incremental_scan_threads
                == other.incremental_scan_threads {
                None
            } else {
                Some(other.incremental_scan_threads)
            },
            incremental_scan_concurrency: if self.incremental_scan_concurrency
                == other.incremental_scan_concurrency {
                None
            } else {
                Some(other.incremental_scan_concurrency)
            },
            incremental_scan_concurrency_limit: if self.incremental_scan_concurrency_limit
                == other.incremental_scan_concurrency_limit {
                None
            } else {
                Some(other.incremental_scan_concurrency_limit)
            },
            incremental_scan_speed_limit: if self.incremental_scan_speed_limit
                == other.incremental_scan_speed_limit {
                None
            } else {
                Some(other.incremental_scan_speed_limit)
            },
            incremental_fetch_speed_limit: if self.incremental_fetch_speed_limit
                == other.incremental_fetch_speed_limit {
                None
            } else {
                Some(other.incremental_fetch_speed_limit)
            },
            tso_worker_threads: if self.tso_worker_threads == other.tso_worker_threads {
                None
            } else {
                Some(other.tso_worker_threads)
            },
            sink_memory_quota: if self.sink_memory_quota == other.sink_memory_quota {
                None
            } else {
                Some(other.sink_memory_quota)
            },
            old_value_cache_memory_quota: if self.old_value_cache_memory_quota
                == other.old_value_cache_memory_quota {
                None
            } else {
                Some(other.old_value_cache_memory_quota)
            },
        }
    }

    /// Makes the settings valid.
    pub fn validate(&mut self, raftstore_v2: bool)
        ensures
            *final(self) == old(self).spec_validate(raftstore_v2),
            final(self).valid(raftstore_v2),
    {
        if self.min_ts_interval == 0 {
            self.min_ts_interval = DEFAULT_MIN_TS_INTERVAL_MS;
        }
        if self.incremental_scan_threads == 0 {
            self.incremental_scan_threads = DEFAULT_INCREMENTAL_SCAN_THREADS;
        }
        if self.incremental_scan_concurrency < self.incremental_scan_threads {
            self.incremental_scan_concurrency = self.incremental_scan_threads;
        }
        if raftstore_v2 && self.hibernate_regions_compatible {
            self.hibernate_regions_compatible = false;
        }
    }
}

/// Validation leaves valid settings alone, and makes all others valid.
pub proof fn lemma_validate(cfg: CdcConfig, raftstore_v2: bool)
    ensures
        cfg.spec_validate(raftstore_v2).valid(raftstore_v2),
        cfg.valid(raftstore_v2) ==> cfg.spec_validate(raftstore_v2) == cfg,
        cfg.spec_validate(raftstore_v2).spec_validate(raftstore_v2) == cfg.spec_validate(
            raftstore_v2,
        ),
{
}

/// Updating by the difference to other settings gives those settings.
pub proof fn lemma_update_diff(cfg: CdcConfig, other: CdcConfig)
    ensures
        cfg.spec_update(cfg.spec_diff(other)) == other,
        cfg.spec_diff(cfg) == ConfigChange::spec_none(),
        cfg.spec_update(ConfigChange::spec_none()) == cfg,
{
}

} // verus!
