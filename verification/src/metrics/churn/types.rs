//! The churn timeline section: lines added and deleted per day.
use vstd::prelude::*;

verus! {

/// Repository-level day-bucketed churn.
#[derive(Debug, Clone, PartialEq, Eq)]
pub struct ChurnTimelineReport {
    /// Bucket width in days.
    pub bucket_days: u32,
    pub merge_commits_excluded: bool,
    /// One entry per UTC day from the first to the last active day,
    /// zero-filled.
    pub buckets: Vec<ChurnBucket>,
}

/// One day of churn.
#[derive(Debug, Clone, PartialEq, Eq)]
pub struct ChurnBucket {
    /// UTC day, `YYYY-MM-DD`.
    pub date: String,
    pub added: u64,
    pub deleted: u64,
}

} // verus!
