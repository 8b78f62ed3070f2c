use barad_dur::metrics::churn::types::ChurnBucket;
use barad_dur::metrics::churn::{churn_timeline_report, Commit, FileChange};

/// Seconds since the epoch of 2026-08-`day` at `hour`:00 UTC.
fn at(day: u32, hour: u32) -> i64 {
    // 2026-08-19 is day 20684 after 1970-01-01.
    (20684 + day as i64 - 19) * 86400 + hour as i64 * 3600
}

fn commit(day: u32, hour: u32, files: &[(&str, u32, u32)], is_merge: bool) -> Commit {
    Commit {
        timestamp: at(day, hour),
        is_merge,
        files_changed: files
            .iter()
            .map(|&(p, add, del)| FileChange {
                path: p.to_string(),
                additions: add,
                deletions: del,
            })
            .collect(),
    }
}

fn files() -> Vec<String> {
    vec!["a.rs".to_string(), "b.rs".to_string()]
}

fn bucket(date: &str, added: u64, deleted: u64) -> ChurnBucket {
    ChurnBucket {
        date: date.to_string(),
        added,
        deleted,
    }
}

#[test]
fn buckets_by_utc_day_with_exact_sums() {
    let commits = vec![
        commit(19, 23, &[("a.rs", 10, 2)], false),
        commit(20, 0, &[("a.rs", 5, 1), ("b.rs", 7, 0)], false),
    ];
    let t = churn_timeline_report(&commits, &files()).expect("report");
    assert_eq!(t.bucket_days, 1);
    assert!(t.merge_commits_excluded);
    assert_eq!(
        t.buckets,
        vec![bucket("2026-08-19", 10, 2), bucket("2026-08-20", 12, 1)]
    );
}

#[test]
fn gap_days_are_zero_filled() {
    let commits = vec![
        commit(19, 9, &[("a.rs", 3, 0)], false),
        commit(21, 9, &[("a.rs", 4, 0)], false),
    ];
    let t = churn_timeline_report(&commits, &files()).expect("report");
    assert_eq!(t.buckets.len(), 3, "19th, 20th (zero), 21st");
    assert_eq!(t.buckets[1], bucket("2026-08-20", 0, 0));
}

#[test]
fn merge_commit_churn_is_excluded() {
    let commits = vec![
        commit(19, 9, &[("a.rs", 3, 1)], false),
        commit(19, 10, &[("a.rs", 500, 200), ("b.rs", 300, 0)], true),
    ];
    let t = churn_timeline_report(&commits, &files()).expect("report");
    assert_eq!(t.buckets, vec![bucket("2026-08-19", 3, 1)]);
}

#[test]
fn excluded_files_do_not_count() {
    let commits = vec![commit(
        19,
        9,
        &[("a.rs", 3, 0), ("vendor.lock", 9000, 8000)],
        false,
    )];
    let t = churn_timeline_report(&commits, &files()).expect("report");
    assert_eq!(t.buckets, vec![bucket("2026-08-19", 3, 0)]);
}

#[test]
fn no_non_merge_commits_yields_none() {
    assert!(churn_timeline_report(&Vec::new(), &files()).is_none());
    let only_merge = vec![commit(19, 9, &[("a.rs", 1, 0)], true)];
    assert!(churn_timeline_report(&only_merge, &files()).is_none());
}

#[test]
fn a_merge_commit_outside_the_active_days_does_not_widen_them() {
    let commits = vec![
        commit(15, 9, &[("a.rs", 1, 1)], true),
        commit(19, 9, &[("a.rs", 2, 0)], false),
        commit(25, 9, &[("b.rs", 1, 1)], true),
    ];
    let t = churn_timeline_report(&commits, &files()).expect("report");
    assert_eq!(t.buckets, vec![bucket("2026-08-19", 2, 0)]);
}

#[test]
fn days_before_the_epoch_round_down() {
    // One second before 1970-01-01 is still 1969-12-31.
    let commits = vec![
        Commit {
            timestamp: -1,
            is_merge: false,
            files_changed: vec![FileChange {
                path: "a.rs".to_string(),
                additions: 4,
                deletions: 1,
            }],
        },
        Commit {
            timestamp: 0,
            is_merge: false,
            files_changed: vec![FileChange {
                path: "a.rs".to_string(),
                additions: 2,
                deletions: 0,
            }],
        },
    ];
    let t = churn_timeline_report(&commits, &files()).expect("report");
    assert_eq!(
        t.buckets,
        vec![bucket("1969-12-31", 4, 1), bucket("1970-01-01", 2, 0)]
    );
}

#[test]
fn commits_in_any_order_fill_the_same_days() {
    let commits = vec![
        commit(21, 9, &[("b.rs", 1, 2)], false),
        commit(19, 9, &[("a.rs", 3, 4)], false),
        commit(21, 18, &[("a.rs", 5, 6)], false),
    ];
    let t = churn_timeline_report(&commits, &files()).expect("report");
    assert_eq!(
        t.buckets,
        vec![
            bucket("2026-08-19", 3, 4),
            bucket("2026-08-20", 0, 0),
            bucket("2026-08-21", 6, 8),
        ]
    );
}
