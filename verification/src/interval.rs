//! The unit of replication: a time-bucketed snapshot record.

use vstd::prelude::*;

verus! {

/// A time-bucketed metric snapshot. The natural key is
/// `(start_time, end_time)`; `id` is assigned by an individual backend and is
/// never consulted for deduplication.
#[derive(Clone, Copy, Debug, PartialEq, Eq, Structural)]
pub struct Interval {
    /// Start of the bucket, seconds since the Unix epoch.
    pub start_time: u64,
    /// End of the bucket, seconds since the Unix epoch.
    pub end_time: u64,
    /// Number of records aggregated into the bucket.
    pub count: u64,
    /// Measured units for the bucket.
    pub units: u64,
    /// Backend-assigned identifier, if a store produced one.
    pub id: Option<u64>,
}

impl Interval {
    /// A well-formed interval covers a non-empty span of time.
    pub open spec fn wf(self) -> bool {
        self.start_time < self.end_time
    }

    /// The natural key used for deduplication across all backends.
    pub open spec fn key(self) -> (u64, u64) {
        (self.start_time, self.end_time)
    }

    pub fn new(start_time: u64, end_time: u64, count: u64, units: u64) -> (r: Interval)
        requires
            start_time < end_time,
        ensures
            r == (Interval { start_time, end_time, count, units, id: None::<u64> }),
            r.wf(),
    {
        Interval { start_time, end_time, count, units, id: None }
    }

    /// Whether this interval and `other` describe the same time bucket.
    pub fn same_key(&self, other: &Interval) -> (r: bool)
        ensures
            r == (self.key() == other.key()),
    {
        self.start_time == other.start_time && self.end_time == other.end_time
    }
}

/// Every interval in `s` is well formed.
pub open spec fn all_wf(s: Seq<Interval>) -> bool {
    forall|i: int| 0 <= i < s.len() ==> (#[trigger] s[i]).wf()
}

} // verus!
