use barad_dur::field_test::mode::Mode;
use barad_dur::field_test::surface::{ActionSurface, DecisionSurface};
use barad_dur::field_test::sweep::{
    audit_corpus, baseline_for, reads_baseline, step_for, summary_line, AuditInput, RepoStep,
};

fn with_actions(texts: &[&str]) -> DecisionSurface {
    let mut s = DecisionSurface::empty();
    s.actions = texts
        .iter()
        .map(|t| ActionSurface {
            target_tab: "x".into(),
            text: (*t).into(),
        })
        .collect();
    s
}

fn input(name: &str, baseline: Option<&[&str]>, current: &[&str]) -> AuditInput {
    AuditInput {
        name: name.to_string(),
        baseline: baseline.map(with_actions),
        current: with_actions(current),
    }
}

fn texts(sampled: &[(String, Vec<ActionSurface>)]) -> Vec<&str> {
    sampled
        .iter()
        .flat_map(|(_, items)| items.iter().map(|a| a.text.as_str()))
        .collect()
}

#[test]
fn rotation_allowance_is_spent_across_the_corpus_not_per_repository() {
    let inputs = vec![
        input("first", Some(&["a1", "a2", "a3", "a4"]), &["a1", "a2", "a3", "a4"]),
        input("second", Some(&["b1", "b2", "b3", "b4"]), &["b1", "b2", "b3", "b4"]),
        input("third", Some(&["c1", "c2", "c3", "c4"]), &["c1", "c2", "c3", "c4"]),
    ];
    let sampled = audit_corpus(&inputs, &Vec::new(), 5);
    assert_eq!(
        texts(&sampled).len(),
        5,
        "the rotation budget is corpus-wide: 3 repos with 4 pre-existing \
         recommendations each must yield 5 rows in total, not 12, and not 5 per repo"
    );
}

#[test]
fn new_recommendations_are_never_capped_by_the_rotation_allowance() {
    let inputs = vec![
        input("first", Some(&["a1", "a2"]), &["a1", "a2"]),
        input("second", Some(&["b1", "b2", "b3"]), &["b1", "b2", "b3"]),
        input("third", Some(&["c1"]), &["c1", "new one", "new two", "new three"]),
    ];
    let sampled = audit_corpus(&inputs, &Vec::new(), 5);
    let seen = texts(&sampled);
    for fresh in ["new one", "new two", "new three"] {
        assert!(
            seen.contains(&fresh),
            "new recommendation {fresh:?} must appear even with the \
             rotation allowance already exhausted, got: {seen:?}"
        );
    }
}

#[test]
fn a_repository_with_no_baseline_is_audited_against_an_empty_baseline() {
    let inputs = vec![input("brand-new", None, &["one", "two", "three"])];
    let sampled = audit_corpus(&inputs, &Vec::new(), 0);
    assert_eq!(
        texts(&sampled),
        vec!["one", "two", "three"],
        "with no baseline every recommendation is new, so all of them are \
         sampled regardless of the rotation allowance"
    );
}

#[test]
fn audit_mode_audits_a_repository_without_a_baseline_instead_of_seeding_it() {
    assert_eq!(step_for(Mode::Audit, None), RepoStep::Audit(None));
}

#[test]
fn audit_mode_never_writes_a_baseline_even_when_one_exists() {
    assert_eq!(
        step_for(Mode::Audit, Some(with_actions(&["a"]))),
        RepoStep::Audit(Some(with_actions(&["a"]))),
        "the only step allowed to write a baseline is Accept"
    );
}

#[test]
fn run_mode_does_not_silently_seed_a_missing_baseline() {
    assert_eq!(step_for(Mode::Run, None), RepoStep::MissingBaseline);
}

#[test]
fn run_mode_compares_against_an_existing_baseline() {
    assert_eq!(
        step_for(Mode::Run, Some(with_actions(&["a"]))),
        RepoStep::Compare(with_actions(&["a"]))
    );
}

#[test]
fn accept_overwrites_whether_or_not_a_baseline_was_found() {
    assert_eq!(step_for(Mode::Accept, None), RepoStep::Accept);
    assert_eq!(step_for(Mode::Accept, Some(with_actions(&["a"]))), RepoStep::Accept);
}

#[test]
fn a_fully_compared_run_reports_the_corpus_size() {
    assert_eq!(summary_line(11), "field test clean across 11 repositories");
}

#[test]
fn accept_does_not_depend_on_a_corrupt_baseline() {
    assert!(!reads_baseline(Mode::Accept));
    let got = baseline_for(Mode::Accept, Err("not valid json".to_string()));
    assert_eq!(got, Ok(None));
}

#[test]
fn run_and_audit_surface_a_corrupt_baseline_as_an_error() {
    assert!(reads_baseline(Mode::Run));
    assert!(reads_baseline(Mode::Audit));
    assert!(baseline_for(Mode::Run, Err("not valid json".to_string())).is_err());
    assert_eq!(
        baseline_for(Mode::Audit, Ok(Some(with_actions(&["a"])))),
        Ok(Some(with_actions(&["a"])))
    );
}

#[test]
fn repositories_with_nothing_to_audit_are_left_out() {
    let inputs = vec![
        input("quiet", Some(&["a"]), &["a"]),
        input("loud", Some(&["b"]), &["b", "c"]),
    ];
    let seen = vec!["a".to_string(), "b".to_string()];
    let sampled = audit_corpus(&inputs, &seen, 10);
    assert_eq!(sampled.len(), 1);
    assert_eq!(sampled[0].0, "loud");
    assert_eq!(texts(&sampled), vec!["c"]);
}
