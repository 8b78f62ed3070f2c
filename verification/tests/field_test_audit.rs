use barad_dur::field_test::audit::{render_worksheet, select_for_audit, WITHDRAWN_PREFIX};
use barad_dur::field_test::surface::{ActionSurface, DecisionSurface};

fn with_actions(texts: &[&str]) -> DecisionSurface {
    let mut s = DecisionSurface::empty();
    s.overall_score = 1;
    s.total_files = 1;
    s.total_commits = 1;
    s.total_authors = 1;
    s.actions = texts
        .iter()
        .map(|t| ActionSurface {
            target_tab: "x".into(),
            text: (*t).into(),
        })
        .collect();
    s
}

fn no_seen() -> Vec<String> {
    Vec::new()
}

#[test]
fn always_includes_every_new_recommendation() {
    let picked = select_for_audit(
        &with_actions(&["old"]),
        &with_actions(&["old", "brand new"]),
        &no_seen(),
        0,
    );
    assert!(picked.iter().any(|a| a.text == "brand new"));
}

#[test]
fn surfaces_a_recommendation_this_merge_removed() {
    let picked = select_for_audit(
        &with_actions(&["still here", "withdrawn"]),
        &with_actions(&["still here"]),
        &no_seen(),
        0,
    );
    assert!(
        picked.iter().any(|a| a.text.contains("withdrawn")),
        "a removed recommendation must be sampled, got: {:?}",
        picked.iter().map(|a| &a.text).collect::<Vec<_>>()
    );
}

#[test]
fn a_reworded_recommendation_shows_both_its_old_and_new_form() {
    let picked = select_for_audit(
        &with_actions(&["Long methods (score: 25) - extract"]),
        &with_actions(&["Long methods (score: 50) - extract"]),
        &no_seen(),
        0,
    );
    let texts: Vec<&str> = picked.iter().map(|a| a.text.as_str()).collect();
    assert!(
        texts
            .iter()
            .any(|t| t.contains("score: 50") && !t.starts_with(WITHDRAWN_PREFIX)),
        "the new form must be sampled, got: {texts:?}"
    );
    assert!(
        texts
            .iter()
            .any(|t| t.starts_with(WITHDRAWN_PREFIX) && t.contains("score: 25")),
        "the superseded form must be sampled as withdrawn, got: {texts:?}"
    );
}

#[test]
fn an_unchanged_recommendation_is_never_reported_as_withdrawn() {
    let picked = select_for_audit(
        &with_actions(&["a", "b"]),
        &with_actions(&["a", "b"]),
        &no_seen(),
        0,
    );
    assert!(
        picked.is_empty(),
        "nothing changed, nothing due for rotation: {:?}",
        picked.iter().map(|a| &a.text).collect::<Vec<_>>()
    );
}

#[test]
fn rotates_through_unseen_pre_existing_recommendations() {
    let seen: Vec<String> = vec!["a".to_string()];
    let picked = select_for_audit(
        &with_actions(&["a", "b", "c"]),
        &with_actions(&["a", "b", "c"]),
        &seen,
        2,
    );
    let texts: Vec<_> = picked.iter().map(|a| a.text.as_str()).collect();
    assert!(!texts.contains(&"a"), "already audited");
    assert_eq!(texts.len(), 2, "rotation slice is bounded");
}

#[test]
fn rotation_slice_is_bounded_even_when_much_is_unseen() {
    let picked = select_for_audit(
        &with_actions(&["a", "b", "c", "d", "e", "f"]),
        &with_actions(&["a", "b", "c", "d", "e", "f"]),
        &no_seen(),
        5,
    );
    assert_eq!(picked.len(), 5);
}

#[test]
fn worksheet_carries_the_true_safe_actionable_rubric() {
    let sheet = render_worksheet("ripgrep", &with_actions(&["do a thing"]).actions);
    assert!(sheet.contains("do a thing"));
    assert!(sheet.contains("True"));
    assert!(sheet.contains("Safe"));
    assert!(sheet.contains("Actionable"));
}

#[test]
fn withdrawn_items_carry_the_prefix_and_keep_their_tab() {
    let picked = select_for_audit(&with_actions(&["gone"]), &with_actions(&[]), &no_seen(), 3);
    assert_eq!(picked.len(), 1);
    assert_eq!(picked[0].text, "[withdrawn] gone");
    assert_eq!(picked[0].target_tab, "x");
}

#[test]
fn worksheet_escapes_pipes_and_numbers_rows_from_one() {
    let sheet = render_worksheet("repo", &with_actions(&["a|b", "c"]).actions);
    assert!(sheet.starts_with("## repo\n"));
    assert!(sheet.contains("| 1 | a\\|b | | | | |\n"));
    assert!(sheet.contains("| 2 | c | | | | |\n"));
}
