//! Lightweight hot-reload runtime counters.

use std::marker::PhantomData;
use vstd::prelude::*;

verus! {

/// `x + y`, staying at `max`.
pub open spec fn sat_add(x: int, y: int, max: int) -> int {
    if x + y <= max {
        x + y
    } else {
        max
    }
}

/// Counters after one diff that took `nanos` nanoseconds.
pub open spec fn diff_counted(c: Seq<int>, nanos: int) -> Seq<int> {
    c.update(0, sat_add(c[0], 1, u64::MAX as int)).update(
        1,
        sat_add(c[1], nanos, u128::MAX as int),
    ).update(
        2,
        if nanos > c[2] {
            nanos
        } else {
            c[2]
        },
    )
}

/// Counters after one dispatched refresh (and recovery, when `recovery`).
pub open spec fn refresh_counted(c: Seq<int>, recovery: bool) -> Seq<int> {
    c.update(3, sat_add(c[3], 1, u64::MAX as int)).update(
        4,
        if recovery {
            sat_add(c[4], 1, u64::MAX as int)
        } else {
            c[4]
        },
    )
}

/// Counters after one reported failure.
pub open spec fn failure_counted(c: Seq<int>) -> Seq<int> {
    c.update(5, sat_add(c[5], 1, u64::MAX as int))
}

/// Counters after one dispatched removal.
pub open spec fn removal_counted(c: Seq<int>) -> Seq<int> {
    c.update(6, sat_add(c[6], 1, u64::MAX as int))
}

/// Counters after one dispatched cascade refresh.
pub open spec fn cascade_counted(c: Seq<int>) -> Seq<int> {
    c.update(7, sat_add(c[7], 1, u64::MAX as int))
}

/// Counters after one config clone estimated at `estimate` bytes (or not
/// estimated).
pub open spec fn clone_counted(c: Seq<int>, estimate: Option<usize>) -> Seq<int> {
    c.update(8, sat_add(c[8], 1, u64::MAX as int)).update(
        9,
        match estimate {
            Some(b) => sat_add(c[9], b as int, u64::MAX as int),
            None => c[9],
        },
    ).update(
        10,
        if estimate is None {
            sat_add(c[10], 1, u64::MAX as int)
        } else {
            c[10]
        },
    )
}

/// Per-asset-type counters for diagnosing refresh cost and clone pressure.
/// Every counter stays at its maximum instead of wrapping.
pub struct HmrMetrics<A> {
    /// Number of diffs computed.
    pub diff_runs: u64,
    /// Total time spent diffing, in nanoseconds.
    pub total_diff_time_ns: u128,
    /// Longest single diff, in nanoseconds.
    pub max_diff_time_ns: u128,
    /// Refresh notices dispatched (recoveries included).
    pub refreshes_dispatched: u64,
    /// Refresh notices dispatched because a failed source recovered.
    pub recoveries_dispatched: u64,
    /// Load failures reported.
    pub failures_reported: u64,
    /// Removal notices dispatched.
    pub removals_dispatched: u64,
    /// Dependency-cascade refresh notices dispatched.
    pub cascades_dispatched: u64,
    /// Config values cloned.
    pub config_clone_count: u64,
    /// Estimated bytes owned by the cloned config values.
    pub estimated_clone_bytes: u64,
    /// Clones whose size could not be estimated.
    pub unestimated_clone_count: u64,
    /// Ties the counters to one asset type.
    pub marker: PhantomData<A>,
}

impl<A> HmrMetrics<A> {
    /// All counters, in declaration order: diff runs, total diff time,
    /// longest diff, refreshes, recoveries, failures, removals, cascades,
    /// clones, estimated clone bytes, unestimated clones.
    pub open spec fn counters(&self) -> Seq<int> {
        seq![
            self.diff_runs as int,
            self.total_diff_time_ns as int,
            self.max_diff_time_ns as int,
            self.refreshes_dispatched as int,
            self.recoveries_dispatched as int,
            self.failures_reported as int,
            self.removals_dispatched as int,
            self.cascades_dispatched as int,
            self.config_clone_count as int,
            self.estimated_clone_bytes as int,
            self.unestimated_clone_count as int,
        ]
    }

    /// All counters at zero.
    pub fn new() -> (metrics: Self)
        ensures
            metrics.counters() == Seq::new(11, |i: int| 0int),
    {
        let metrics = HmrMetrics {
            diff_runs: 0,
            total_diff_time_ns: 0,
            max_diff_time_ns: 0,
            refreshes_dispatched: 0,
            recoveries_dispatched: 0,
            failures_reported: 0,
            removals_dispatched: 0,
            cascades_dispatched: 0,
            config_clone_count: 0,
            estimated_clone_bytes: 0,
            unestimated_clone_count: 0,
            marker: PhantomData,
        };
        assert(metrics.counters() =~= Seq::new(11, |i: int| 0int));
        metrics
    }

    /// Account one diff that took `nanos` nanoseconds.
    pub fn record_diff(&mut self, nanos: u128)
        ensures
            final(self).counters() == diff_counted(old(self).counters(), nanos as int),
    {
        self.diff_runs = self.diff_runs.saturating_add(1);
        self.total_diff_time_ns = self.total_diff_time_ns.saturating_add(nanos);
        if nanos > self.max_diff_time_ns {
            self.max_diff_time_ns = nanos;
        }
        assert(self.counters() =~= diff_counted(old(self).counters(), nanos as int));
    }

    /// Account one config clone whose owned size was estimated at
    /// `estimated_bytes`, or could not be estimated.
    pub fn record_config_clone(&mut self, estimated_bytes: Option<usize>)
        ensures
            final(self).counters() == clone_counted(old(self).counters(), estimated_bytes),
    {
        self.config_clone_count = self.config_clone_count.saturating_add(1);
        match estimated_bytes {
            Some(bytes) => {
                self.estimated_clone_bytes = self.estimated_clone_bytes.saturating_add(
                    bytes as u64,
                );
            },
            None => {
                self.unestimated_clone_count = self.unestimated_clone_count.saturating_add(1);
            },
        }
        assert(self.counters() =~= clone_counted(old(self).counters(), estimated_bytes));
    }

    /// Account one dispatched refresh, and one recovery when `recovery`.
    pub fn count_refresh(&mut self, recovery: bool)
        ensures
            final(self).counters() == refresh_counted(old(self).counters(), recovery),
    {
        self.refreshes_dispatched = self.refreshes_dispatched.saturating_add(1);
        if recovery {
            self.recoveries_dispatched = self.recoveries_dispatched.saturating_add(1);
        }
        assert(self.counters() =~= refresh_counted(old(self).counters(), recovery));
    }

    /// Account one reported load failure.
    pub fn count_failure(&mut self)
        ensures
            final(self).counters() == failure_counted(old(self).counters()),
    {
        self.failures_reported = self.failures_reported.saturating_add(1);
        assert(self.counters() =~= failure_counted(old(self).counters()));
    }

    /// Account one dispatched removal notice.
    pub fn count_removal(&mut self)
        ensures
            final(self).counters() == removal_counted(old(self).counters()),
    {
        self.removals_dispatched = self.removals_dispatched.saturating_add(1);
        assert(self.counters() =~= removal_counted(old(self).counters()));
    }

    /// Account one dispatched dependency-cascade refresh.
    pub fn count_cascade(&mut self)
        ensures
            final(self).counters() == cascade_counted(old(self).counters()),
    {
        self.cascades_dispatched = self.cascades_dispatched.saturating_add(1);
        assert(self.counters() =~= cascade_counted(old(self).counters()));
    }
}

impl<A> Default for HmrMetrics<A> {
    fn default() -> (metrics: Self)
        ensures
            metrics.counters() == Seq::new(11, |i: int| 0int),
    {
        Self::new()
    }
}

} // verus!
