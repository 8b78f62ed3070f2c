//! The repository-level churn timeline: lines added and deleted per UTC
//! day across the analysis window. Merge commits are left out (their
//! first-parent diff counts every merged change again), and so are files
//! outside the repository's file list; the days from the first to the last
//! active day are all present, the quiet ones as zeros.
pub mod types;

use vstd::prelude::*;

use crate::metrics::churn::types::{ChurnBucket, ChurnTimelineReport};
use crate::metrics::coupling::{contains_path, list_contains, paths_view};

verus! {

// ── Commits ────────────────────────────────────────────────────────────

/// The lines one commit changed in one file.
#[derive(Debug, Clone)]
pub struct FileChange {
    pub path: String,
    pub additions: u32,
    pub deletions: u32,
}

/// What the timeline reads of a commit: when it was made (seconds since
/// the Unix epoch, UTC), whether it is a merge, and what it changed.
#[derive(Debug, Clone)]
pub struct Commit {
    pub timestamp: i64,
    pub is_merge: bool,
    pub files_changed: Vec<FileChange>,
}

/// The epoch day of `NaiveDate::MIN` (1 January 262144 BCE).
pub const MIN_EPOCH_DAY: i32 = -96465292i32;

/// The epoch day of `NaiveDate::MAX` (31 December 262142 CE).
pub const MAX_EPOCH_DAY: i32 = 95026236i32;

/// Name for the `%Y-%m-%d` rendering of the date `day` days after
/// 1 January 1970.
pub uninterp spec fn epoch_day_label(day: int) -> Seq<char>;

/// `NaiveDate::from_epoch_days`, rendered with `format("%Y-%m-%d")`: a
/// date exists exactly for the days from `NaiveDate::MIN` to
/// `NaiveDate::MAX`, and its rendering is named, not stated.
#[verifier::external_body]
fn day_label(day: i32) -> (r: Option<String>)
    ensures
        r is Some <==> MIN_EPOCH_DAY <= day <= MAX_EPOCH_DAY,
        r matches Some(s) ==> s@ == epoch_day_label(day as int),
{
    match chrono::NaiveDate::from_epoch_days(day) {
        Some(d) => Some(d.format("%Y-%m-%d").to_string()),
        None => None,
    }
}

/// The UTC day a timestamp falls on (`DateTime::<Utc>::date_naive`), as
/// days since 1 January 1970.
pub open spec fn day_of(timestamp: i64) -> int {
    timestamp as int / 86400
}

/// Every commit's day is a date (as every `DateTime<Utc>`'s is).
pub open spec fn days_in_range(cs: Seq<Commit>) -> bool {
    forall|i: int| 0 <= i < cs.len() ==> MIN_EPOCH_DAY <= #[trigger] day_of(cs[i].timestamp) <= MAX_EPOCH_DAY
}

/// The day of `timestamp`, rounding down.
fn day_of_exec(timestamp: i64) -> (r: i64)
    ensures
        r == day_of(timestamp),
{
    if timestamp >= 0 {
        let q = (timestamp as u64) / 86400;
        assert(q as int == timestamp as int / 86400);
        q as i64
    } else {
        let m: i64 = -(timestamp + 1);
        let q = (m as u64) / 86400;
        proof {
            let t = timestamp as int;
            assert(t == -(m as int) - 1);
            assert(q as int == (m as int) / 86400);
            lemma_floor_of_negative(m as int);
        }
        -(q as i64) - 1
    }
}

proof fn lemma_floor_of_negative(m: int)
    requires
        m >= 0,
    ensures
        (-m - 1) / 86400 == -(m / 86400) - 1,
{
    let q = m / 86400;
    let r = m % 86400;
    assert(m == 86400 * q + r && 0 <= r < 86400) by (nonlinear_arith)
        requires
            q == m / 86400,
            r == m % 86400,
            m >= 0,
    ;
    assert(-m - 1 == 86400 * (-q - 1) + (86399 - r));
    assert((-m - 1) / 86400 == -q - 1) by (nonlinear_arith)
        requires
            -m - 1 == 86400 * (-q - 1) + (86399 - r),
            0 <= 86399 - r < 86400,
    ;
}

// ── The timeline ───────────────────────────────────────────────────────

/// Lines added (`added`) or deleted by one change, if its file is one of
/// `files`.
pub open spec fn change_lines(fc: FileChange, files: Seq<Seq<char>>, added: bool) -> int {
    if contains_path(files, fc.path@) {
        if added {
            fc.additions as int
        } else {
            fc.deletions as int
        }
    } else {
        0
    }
}

/// Lines added or deleted by the changes `fcs` in `files`.
pub open spec fn changes_lines(fcs: Seq<FileChange>, files: Seq<Seq<char>>, added: bool) -> int
    decreases fcs.len(),
{
    if fcs.len() == 0 {
        0
    } else {
        changes_lines(fcs.drop_last(), files, added) + change_lines(fcs.last(), files, added)
    }
}

/// Lines the non-merge commits among the first `i` added or deleted in
/// `files` on day `d`.
pub open spec fn day_lines_upto(cs: Seq<Commit>, files: Seq<Seq<char>>, d: int, added: bool, i: int) -> int
    decreases i,
{
    if i <= 0 || i > cs.len() {
        0
    } else {
        day_lines_upto(cs, files, d, added, i - 1) + if !cs[i - 1].is_merge && day_of(cs[i - 1].timestamp) == d {
            changes_lines(cs[i - 1].files_changed@, files, added)
        } else {
            0
        }
    }
}

/// Lines the non-merge commits added or deleted in `files` on day `d`.
pub open spec fn day_lines(cs: Seq<Commit>, files: Seq<Seq<char>>, d: int, added: bool) -> int {
    day_lines_upto(cs, files, d, added, cs.len() as int)
}

/// Every day's totals fit in a `u64`.
pub open spec fn totals_fit(cs: Seq<Commit>, files: Seq<Seq<char>>) -> bool {
    forall|d: int, added: bool| #[trigger] day_lines(cs, files, d, added) <= u64::MAX
}

/// The earliest day of a non-merge commit among the first `i`.
pub open spec fn first_day_upto(cs: Seq<Commit>, i: int) -> Option<int>
    decreases i,
{
    if i <= 0 || i > cs.len() {
        None
    } else {
        let prev = first_day_upto(cs, i - 1);
        if cs[i - 1].is_merge {
            prev
        } else {
            match prev {
                Some(f) => if day_of(cs[i - 1].timestamp) < f {
                    Some(day_of(cs[i - 1].timestamp))
                } else {
                    Some(f)
                },
                None => Some(day_of(cs[i - 1].timestamp)),
            }
        }
    }
}

/// The latest day of a non-merge commit among the first `i`.
pub open spec fn last_day_upto(cs: Seq<Commit>, i: int) -> Option<int>
    decreases i,
{
    if i <= 0 || i > cs.len() {
        None
    } else {
        let prev = last_day_upto(cs, i - 1);
        if cs[i - 1].is_merge {
            prev
        } else {
            match prev {
                Some(l) => if day_of(cs[i - 1].timestamp) > l {
                    Some(day_of(cs[i - 1].timestamp))
                } else {
                    Some(l)
                },
                None => Some(day_of(cs[i - 1].timestamp)),
            }
        }
    }
}

pub open spec fn first_day(cs: Seq<Commit>) -> Option<int> {
    first_day_upto(cs, cs.len() as int)
}

pub open spec fn last_day(cs: Seq<Commit>) -> Option<int> {
    last_day_upto(cs, cs.len() as int)
}

/// `r` is the churn timeline of the commits `cs` over `files`: none
/// without a non-merge commit, else one bucket per day from the first to
/// the last active day.
pub open spec fn is_timeline(r: Option<ChurnTimelineReport>, cs: Seq<Commit>, files: Seq<Seq<char>>) -> bool {
    match (first_day(cs), last_day(cs)) {
        (Some(f), Some(l)) => r matches Some(t) && {
            &&& t.bucket_days == 1
            &&& t.merge_commits_excluded
            &&& t.buckets@.len() == l - f + 1
            &&& forall|k: int| 0 <= k < t.buckets@.len() ==> {
                &&& (#[trigger] t.buckets@[k]).date@ == epoch_day_label(f + k)
                &&& t.buckets@[k].added == day_lines(cs, files, f + k, true)
                &&& t.buckets@[k].deleted == day_lines(cs, files, f + k, false)
            }
        },
        _ => r is None,
    }
}

proof fn lemma_active_days(cs: Seq<Commit>, i: int)
    requires
        0 <= i <= cs.len(),
    ensures
        (first_day_upto(cs, i) is None) == (last_day_upto(cs, i) is None),
        first_day_upto(cs, i) matches Some(f) ==> (last_day_upto(cs, i) matches Some(l) && f <= l
            && (days_in_range(cs) ==> MIN_EPOCH_DAY <= f && l <= MAX_EPOCH_DAY)),
        forall|j: int| 0 <= j < i && !cs[j].is_merge ==> (first_day_upto(cs, i) matches Some(f)
            && last_day_upto(cs, i) matches Some(l) && f <= #[trigger] day_of(cs[j].timestamp) <= l),
    decreases i,
{
    if i > 0 {
        lemma_active_days(cs, i - 1);
        if days_in_range(cs) {
            assert(MIN_EPOCH_DAY <= day_of(cs[i - 1].timestamp) <= MAX_EPOCH_DAY);
        }
    }
}

proof fn lemma_changes_prefix(fcs: Seq<FileChange>, files: Seq<Seq<char>>, added: bool, j: int)
    requires
        0 <= j <= fcs.len(),
    ensures
        0 <= changes_lines(fcs.take(j), files, added) <= changes_lines(fcs, files, added),
        j < fcs.len() ==> changes_lines(fcs.take(j + 1), files, added) == changes_lines(fcs.take(j), files, added)
            + change_lines(fcs[j], files, added),
    decreases fcs.len() - j,
{
    lemma_changes_nonneg(fcs.take(j), files, added);
    if j < fcs.len() {
        assert(fcs.take(j + 1).drop_last() =~= fcs.take(j));
        assert(fcs.take(j + 1).last() == fcs[j]);
        lemma_changes_prefix(fcs, files, added, j + 1);
    } else {
        assert(fcs.take(j) =~= fcs);
        lemma_changes_nonneg(fcs, files, added);
    }
}

proof fn lemma_changes_nonneg(fcs: Seq<FileChange>, files: Seq<Seq<char>>, added: bool)
    ensures
        0 <= changes_lines(fcs, files, added),
    decreases fcs.len(),
{
    if fcs.len() > 0 {
        lemma_changes_nonneg(fcs.drop_last(), files, added);
    }
}

proof fn lemma_day_lines_monotone(cs: Seq<Commit>, files: Seq<Seq<char>>, d: int, added: bool, i: int, n: int)
    requires
        0 <= i <= n <= cs.len(),
    ensures
        0 <= day_lines_upto(cs, files, d, added, i) <= day_lines_upto(cs, files, d, added, n),
    decreases n - i,
{
    if i < n {
        lemma_day_lines_monotone(cs, files, d, added, i, n - 1);
        lemma_changes_nonneg(cs[n - 1].files_changed@, files, added);
    } else {
        lemma_day_lines_nonneg(cs, files, d, added, i);
    }
}

proof fn lemma_day_lines_nonneg(cs: Seq<Commit>, files: Seq<Seq<char>>, d: int, added: bool, i: int)
    ensures
        0 <= day_lines_upto(cs, files, d, added, i),
    decreases i,
{
    if i > 0 && i <= cs.len() {
        lemma_day_lines_nonneg(cs, files, d, added, i - 1);
        lemma_changes_nonneg(cs[i - 1].files_changed@, files, added);
    }
}

/// The churn timeline of `commits` over the repository's `files`: `None`
/// when no non-merge commit exists, else one bucket per UTC day from the
/// first to the last day with a non-merge commit, each with the lines
/// those commits added and deleted in `files` that day.
pub fn churn_timeline_report(commits: &Vec<Commit>, files: &Vec<String>) -> (r: Option<ChurnTimelineReport>)
    requires
        days_in_range(commits@),
        totals_fit(commits@, paths_view(files@)),
    ensures
        is_timeline(r, commits@, paths_view(files@)),
{
    let ghost cs = commits@;
    let ghost fv = paths_view(files@);
    let mut first: i64 = 0;
    let mut last: i64 = 0;
    let mut any = false;
    let mut i: usize = 0;
    while i < commits.len()
        invariant
            i <= cs.len(),
            cs == commits@,
            any == first_day_upto(cs, i as int) is Some,
            any ==> first_day_upto(cs, i as int) == Some(first as int) && last_day_upto(cs, i as int)
                == Some(last as int),
            !any ==> last_day_upto(cs, i as int) is None,
        decreases cs.len() - i,
    {
        if !commits[i].is_merge {
            let d = day_of_exec(commits[i].timestamp);
            if !any || d < first {
                first = d;
            }
            if !any || d > last {
                last = d;
            }
            any = true;
        }
        i = i + 1;
    }
    if !any {
        proof {
            lemma_active_days(cs, cs.len() as int);
        }
        return None;
    }
    proof {
        lemma_active_days(cs, cs.len() as int);
    }
    let span: usize = (last - first) as usize + 1;
    let mut added: Vec<u64> = Vec::new();
    let mut deleted: Vec<u64> = Vec::new();
    let mut k: usize = 0;
    while k < span
        invariant
            k <= span,
            added@.len() == k,
            deleted@.len() == k,
            forall|m: int| 0 <= m < k ==> added@[m] == 0 && deleted@[m] == 0,
        decreases span - k,
    {
        added.push(0);
        deleted.push(0);
        k = k + 1;
    }
    let mut i: usize = 0;
    while i < commits.len()
        invariant
            i <= cs.len(),
            cs == commits@,
            fv == paths_view(files@),
            days_in_range(cs),
            totals_fit(cs, fv),
            first_day(cs) == Some(first as int),
            last_day(cs) == Some(last as int),
            span == last - first + 1,
            added@.len() == span,
            deleted@.len() == span,
            forall|m: int| 0 <= m < span ==> #[trigger] added@[m] == day_lines_upto(cs, fv, first + m, true, i as int),
            forall|m: int| 0 <= m < span ==> #[trigger] deleted@[m] == day_lines_upto(cs, fv, first + m, false, i as int),
        decreases cs.len() - i,
    {
        let c = &commits[i];
        if !c.is_merge {
            let d = day_of_exec(c.timestamp);
            proof {
                lemma_active_days(cs, cs.len() as int);
                assert(first <= day_of(cs[i as int].timestamp) <= last);
            }
            let o: usize = (d - first) as usize;
            let ghost fcs = c.files_changed@;
            let ghost base_a = day_lines_upto(cs, fv, d as int, true, i as int);
            let ghost base_d = day_lines_upto(cs, fv, d as int, false, i as int);
            proof {
                assert(added@[o as int] == base_a);
                assert(deleted@[o as int] == base_d);
                assert(fcs.take(0) =~= Seq::<FileChange>::empty());
                lemma_day_lines_monotone(cs, fv, d as int, true, i + 1, cs.len() as int);
                lemma_day_lines_monotone(cs, fv, d as int, false, i + 1, cs.len() as int);
                assert(day_lines(cs, fv, d as int, true) <= u64::MAX);
                assert(day_lines(cs, fv, d as int, false) <= u64::MAX);
            }
            let ghost prev_a = added@;
            let ghost prev_d = deleted@;
            let mut j: usize = 0;
            while j < c.files_changed.len()
                invariant
                    j <= fcs.len(),
                    fcs == c.files_changed@,
                    fv == paths_view(files@),
                    o < span,
                    added@.len() == span,
                    deleted@.len() == span,
                    prev_a.len() == span,
                    prev_d.len() == span,
                    forall|m: int| 0 <= m < span && m != o ==> added@[m] == prev_a[m] && deleted@[m] == prev_d[m],
                    added@[o as int] == base_a + changes_lines(fcs.take(j as int), fv, true),
                    deleted@[o as int] == base_d + changes_lines(fcs.take(j as int), fv, false),
                    base_a + changes_lines(fcs, fv, true) <= u64::MAX,
                    base_d + changes_lines(fcs, fv, false) <= u64::MAX,
                decreases fcs.len() - j,
            {
                let fc = &c.files_changed[j];
                proof {
                    lemma_changes_prefix(fcs, fv, true, j as int);
                    lemma_changes_prefix(fcs, fv, false, j as int);
                    lemma_changes_prefix(fcs, fv, true, j + 1);
                    lemma_changes_prefix(fcs, fv, false, j + 1);
                }
                if list_contains(files, fc.path.as_str()) {
                    let a = added[o] + fc.additions as u64;
                    added.set(o, a);
                    let dl = deleted[o] + fc.deletions as u64;
                    deleted.set(o, dl);
                }
                j = j + 1;
            }
            proof {
                assert(fcs.take(fcs.len() as int) =~= fcs);
                assert forall|m: int| 0 <= m < span implies #[trigger] added@[m] == day_lines_upto(cs, fv, first + m, true, i + 1) by {
                    if m != o {
                        assert(added@[m] == prev_a[m]);
                    }
                }
                assert forall|m: int| 0 <= m < span implies #[trigger] deleted@[m] == day_lines_upto(cs, fv, first + m, false, i + 1) by {
                    if m != o {
                        assert(deleted@[m] == prev_d[m]);
                    }
                }
            }
        } else {
            proof {
                assert forall|m: int| 0 <= m < span implies #[trigger] added@[m] == day_lines_upto(cs, fv, first + m, true, i + 1) by {
                    assert(added@[m] == day_lines_upto(cs, fv, first + m, true, i as int));
                }
                assert forall|m: int| 0 <= m < span implies #[trigger] deleted@[m] == day_lines_upto(cs, fv, first + m, false, i + 1) by {
                    assert(deleted@[m] == day_lines_upto(cs, fv, first + m, false, i as int));
                }
            }
        }
        i = i + 1;
    }
    let mut buckets: Vec<ChurnBucket> = Vec::new();
    let mut k: usize = 0;
    while k < span
        invariant
            k <= span,
            span == last - first + 1,
            MIN_EPOCH_DAY <= first <= last <= MAX_EPOCH_DAY,
            added@.len() == span,
            deleted@.len() == span,
            buckets@.len() == k,
            forall|m: int| 0 <= m < k ==> {
                &&& (#[trigger] buckets@[m]).date@ == epoch_day_label(first + m)
                &&& buckets@[m].added == added@[m]
                &&& buckets@[m].deleted == deleted@[m]
            },
        decreases span - k,
    {
        let day: i64 = first + k as i64;
        let date = match day_label(day as i32) {
            Some(s) => s,
            None => String::new(),
        };
        buckets.push(ChurnBucket { date, added: added[k], deleted: deleted[k] });
        k = k + 1;
    }
    Some(ChurnTimelineReport { bucket_days: 1, merge_commits_excluded: true, buckets })
}

// ── Laws ───────────────────────────────────────────────────────────────

/// Merge commits are left out: one more merge commit changes neither the
/// active days nor any day's totals.
pub proof fn lemma_merge_commits_change_nothing(cs: Seq<Commit>, files: Seq<Seq<char>>, m: Commit, d: int, added: bool)
    requires
        m.is_merge,
    ensures
        first_day(cs.push(m)) == first_day(cs),
        last_day(cs.push(m)) == last_day(cs),
        day_lines(cs.push(m), files, d, added) == day_lines(cs, files, d, added),
{
    lemma_prefix_agrees(cs, m, files, d, added, cs.len() as int);
}

proof fn lemma_prefix_agrees(cs: Seq<Commit>, m: Commit, files: Seq<Seq<char>>, d: int, added: bool, i: int)
    requires
        0 <= i <= cs.len(),
    ensures
        first_day_upto(cs.push(m), i) == first_day_upto(cs, i),
        last_day_upto(cs.push(m), i) == last_day_upto(cs, i),
        day_lines_upto(cs.push(m), files, d, added, i) == day_lines_upto(cs, files, d, added, i),
    decreases i,
{
    if i > 0 {
        lemma_prefix_agrees(cs, m, files, d, added, i - 1);
        assert(cs.push(m)[i - 1] == cs[i - 1]);
    }
}

/// Files outside the list do not count: a change to such a file adds
/// nothing to a commit's totals.
pub proof fn lemma_unlisted_files_do_not_count(fcs: Seq<FileChange>, files: Seq<Seq<char>>, fc: FileChange, added: bool)
    requires
        !contains_path(files, fc.path@),
    ensures
        changes_lines(fcs.push(fc), files, added) == changes_lines(fcs, files, added),
{
    assert(fcs.push(fc).drop_last() =~= fcs);
}

} // verus!
