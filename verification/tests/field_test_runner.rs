use barad_dur::field_test::runner::{
    analyze_args, archive_path, outcome_from_passes, pass_count, CORPUS_HISTORY_SINCE,
};
use barad_dur::field_test::surface::DecisionSurface;

fn surface(score: i64) -> DecisionSurface {
    let mut s = DecisionSurface::empty();
    s.overall_score = score;
    s.total_files = 1;
    s.total_commits = 1;
    s.total_authors = 1;
    s
}

#[test]
fn two_identical_passes_report_no_nondeterminism() {
    let outcome = outcome_from_passes("ripgrep", vec![surface(55), surface(55)]);
    assert!(outcome.nondeterminism.is_none());
    assert_eq!(outcome.surface.overall_score, 55);
}

#[test]
fn differing_passes_are_flagged_as_nondeterminism() {
    let outcome = outcome_from_passes("ripgrep", vec![surface(55), surface(56)]);
    let nd = outcome.nondeterminism.expect("nondeterminism detected");
    assert!(nd.render().contains("overall_score"));
}

#[test]
fn a_single_pass_cannot_report_nondeterminism() {
    let outcome = outcome_from_passes("ripgrep", vec![surface(55)]);
    assert!(outcome.nondeterminism.is_none());
}

#[test]
fn archive_path_names_the_report_by_repo_and_pass() {
    let p = archive_path("/scratch/archive", "ripgrep", 1);
    assert_eq!(p, "/scratch/archive/ripgrep-1.json");
}

#[test]
fn the_outcome_keeps_the_name_and_the_first_pass() {
    let outcome = outcome_from_passes("fd", vec![surface(70), surface(70), surface(10)]);
    assert_eq!(outcome.name, "fd");
    assert_eq!(outcome.surface.overall_score, 70);
    assert!(outcome.nondeterminism.is_none());
}

#[test]
fn analysis_runs_with_the_pinned_history_bound() {
    let args = analyze_args("/tmp/x");
    assert_eq!(
        args,
        vec!["analyze", "/tmp/x", "--json", "--no-cache", "--since", CORPUS_HISTORY_SINCE]
    );
    assert_eq!(CORPUS_HISTORY_SINCE, "2026-03-01");
}

#[test]
fn zero_passes_is_floored_to_one() {
    assert_eq!(pass_count(0), 1);
    assert_eq!(pass_count(3), 3);
}

#[test]
fn archive_path_joins_relative_and_absolute_names() {
    assert_eq!(archive_path("archive/", "rg", 12), "archive/rg-12.json");
}
