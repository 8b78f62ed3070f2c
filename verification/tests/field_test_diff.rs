use barad_dur::field_test::diff::diff_surfaces;
use barad_dur::field_test::surface::{
    ActionSurface, CategorySurface, DecisionSurface, IntMap, MetricSurface,
};

fn int_map(entries: &[(&str, i64)]) -> IntMap {
    let mut m = IntMap::new();
    for (k, v) in entries {
        m.insert(k.to_string(), *v);
    }
    m
}

fn base_surface() -> DecisionSurface {
    DecisionSurface {
        overall_score: 55,
        total_files: 10,
        total_commits: 100,
        total_authors: 3,
        score_thresholds: int_map(&[("good_min", 71), ("warn_min", 41)]),
        coupling_finding_counts: int_map(&[("common", 5)]),
        categories: vec![CategorySurface {
            name: "Health".into(),
            score: Some(40),
            metrics: vec![MetricSurface {
                name: "Bus factor".into(),
                score: Some(25),
            }],
        }],
        actions: vec![ActionSurface {
            target_tab: "ownership".into(),
            text: "old advice".into(),
        }],
        top_hotspots: vec!["a.rs".into(), "b.rs".into()],
    }
}

#[test]
fn identical_surfaces_produce_no_changes() {
    let a = base_surface();
    assert!(diff_surfaces(&a, &a).is_empty());
}

#[test]
fn reports_a_changed_overall_score() {
    let baseline = base_surface();
    let mut current = base_surface();
    current.overall_score = 60;

    let d = diff_surfaces(&baseline, &current);
    assert!(!d.is_empty());
    assert!(d.render().contains("overall_score"), "got: {}", d.render());
    assert!(d.render().contains("55"));
    assert!(d.render().contains("60"));
}

#[test]
fn reports_a_metric_that_stopped_being_unscored() {
    let mut baseline = base_surface();
    let current = base_surface();
    baseline.categories[0].metrics[0].score = None;

    let d = diff_surfaces(&baseline, &current);
    let text = d.render();
    assert!(text.contains("Bus factor"), "got: {text}");
    assert!(text.contains("unscored"), "got: {text}");
}

#[test]
fn reports_added_and_removed_recommendations() {
    let mut baseline = base_surface();
    let mut current = base_surface();
    baseline.actions[0].text = "old advice".into();
    current.actions[0].text = "new advice".into();

    let d = diff_surfaces(&baseline, &current);
    let text = d.render();
    assert!(text.contains("- old advice"), "got: {text}");
    assert!(text.contains("+ new advice"), "got: {text}");
}

#[test]
fn reports_changed_score_threshold() {
    let baseline = base_surface();
    let mut current = base_surface();
    current.score_thresholds.insert("good_min".to_string(), 75);

    let d = diff_surfaces(&baseline, &current);
    let text = d.render();
    assert!(!d.is_empty(), "threshold change should be detected");
    assert!(text.contains("score_thresholds"), "got: {text}");
    assert!(text.contains("71"), "got: {text}");
    assert!(text.contains("75"), "got: {text}");
}

#[test]
fn reports_removed_score_threshold() {
    let baseline = base_surface();
    let mut current = base_surface();
    current.score_thresholds.remove("warn_min");

    let d = diff_surfaces(&baseline, &current);
    let text = d.render();
    assert!(!d.is_empty(), "threshold removal should be detected");
    assert!(text.contains("score_thresholds[warn_min]"), "got: {text}");
    assert!(text.contains("removed"), "got: {text}");
}

#[test]
fn reports_added_score_threshold() {
    let baseline = base_surface();
    let mut current = base_surface();
    current.score_thresholds.insert("new_threshold".to_string(), 50);

    let d = diff_surfaces(&baseline, &current);
    let text = d.render();
    assert!(!d.is_empty(), "new threshold should be detected");
    assert!(
        text.contains("score_thresholds[new_threshold]"),
        "got: {text}"
    );
    assert!(text.contains("added"), "got: {text}");
}

#[test]
fn reports_changed_coupling_finding_counts() {
    let baseline = base_surface();
    let mut current = base_surface();
    current.coupling_finding_counts.insert("common".to_string(), 8);

    let d = diff_surfaces(&baseline, &current);
    let text = d.render();
    assert!(!d.is_empty(), "coupling count change should be detected");
    assert!(text.contains("coupling_finding_counts"), "got: {text}");
    assert!(text.contains("5"), "got: {text}");
    assert!(text.contains("8"), "got: {text}");
}

#[test]
fn reports_removed_coupling_finding_counts() {
    let baseline = base_surface();
    let mut current = base_surface();
    current.coupling_finding_counts.remove("common");

    let d = diff_surfaces(&baseline, &current);
    let text = d.render();
    assert!(!d.is_empty(), "coupling count removal should be detected");
    assert!(
        text.contains("coupling_finding_counts[common]"),
        "got: {text}"
    );
    assert!(text.contains("removed"), "got: {text}");
}

#[test]
fn reports_added_coupling_finding_counts() {
    let baseline = base_surface();
    let mut current = base_surface();
    current
        .coupling_finding_counts
        .insert("inheritance".to_string(), 3);

    let d = diff_surfaces(&baseline, &current);
    let text = d.render();
    assert!(!d.is_empty(), "new coupling count should be detected");
    assert!(
        text.contains("coupling_finding_counts[inheritance]"),
        "got: {text}"
    );
    assert!(text.contains("added"), "got: {text}");
}

#[test]
fn reports_changed_category_score() {
    let baseline = base_surface();
    let mut current = base_surface();
    current.categories[0].score = Some(50);

    let d = diff_surfaces(&baseline, &current);
    let text = d.render();
    assert!(!d.is_empty(), "category score change should be detected");
    assert!(text.contains("category Health"), "got: {text}");
    assert!(text.contains("40"), "got: {text}");
    assert!(text.contains("50"), "got: {text}");
}

#[test]
fn reports_removed_category() {
    let baseline = base_surface();
    let mut current = base_surface();
    current.categories.clear();

    let d = diff_surfaces(&baseline, &current);
    let text = d.render();
    assert!(!d.is_empty(), "removed category should be detected");
    assert!(text.contains("category Health removed"), "got: {text}");
}

#[test]
fn reports_added_category() {
    let baseline = base_surface();
    let mut current = base_surface();
    current.categories.push(CategorySurface {
        name: "Evolution".into(),
        score: Some(60),
        metrics: vec![],
    });

    let d = diff_surfaces(&baseline, &current);
    let text = d.render();
    assert!(!d.is_empty(), "added category should be detected");
    assert!(text.contains("category Evolution added"), "got: {text}");
}

#[test]
fn reports_removed_metric() {
    let baseline = base_surface();
    let mut current = base_surface();
    current.categories[0].metrics.clear();

    let d = diff_surfaces(&baseline, &current);
    let text = d.render();
    assert!(!d.is_empty(), "removed metric should be detected");
    assert!(
        text.contains("metric Health/Bus factor removed"),
        "got: {text}"
    );
}

#[test]
fn reports_added_metric() {
    let baseline = base_surface();
    let mut current = base_surface();
    current.categories[0].metrics.push(MetricSurface {
        name: "Churn".into(),
        score: Some(30),
    });

    let d = diff_surfaces(&baseline, &current);
    let text = d.render();
    assert!(!d.is_empty(), "added metric should be detected");
    assert!(text.contains("metric Health/Churn added"), "got: {text}");
}

#[test]
fn reports_top_hotspots_ranking_changed_with_specific_rank() {
    let baseline = base_surface();
    let mut current = base_surface();
    current.top_hotspots[0] = "c.rs".into();

    let d = diff_surfaces(&baseline, &current);
    let text = d.render();
    assert!(!d.is_empty(), "hotspot change should be detected");
    assert!(
        text.contains("top_hotspots ranking changed at rank 1"),
        "got: {text}"
    );
    assert!(text.contains("a.rs -> c.rs"), "got: {text}");
}

#[test]
fn reports_removed_hotspot() {
    let baseline = base_surface();
    let mut current = base_surface();
    current.top_hotspots.pop();

    let d = diff_surfaces(&baseline, &current);
    let text = d.render();
    assert!(!d.is_empty(), "hotspot removal should be detected");
    assert!(
        text.contains("top_hotspots ranking changed at rank 2"),
        "got: {text}"
    );
    assert!(text.contains("b.rs removed"), "got: {text}");
}

#[test]
fn reports_added_hotspot() {
    let baseline = base_surface();
    let mut current = base_surface();
    current.top_hotspots.push("c.rs".into());

    let d = diff_surfaces(&baseline, &current);
    let text = d.render();
    assert!(!d.is_empty(), "hotspot addition should be detected");
    assert!(
        text.contains("top_hotspots ranking changed at rank 3"),
        "got: {text}"
    );
    assert!(text.contains("c.rs added"), "got: {text}");
}

#[test]
fn duplicate_actions_leave_the_diff_empty() {
    let b = base_surface();
    let mut c = base_surface();
    c.actions = vec![
        ActionSurface {
            target_tab: "ownership".into(),
            text: "old advice".into(),
        },
        ActionSurface {
            target_tab: "ownership".into(),
            text: "old advice".into(),
        },
    ];
    let d = diff_surfaces(&b, &c);
    assert!(d.is_empty());
    assert_eq!(b.overall_score, c.overall_score);
    assert_eq!(b.top_hotspots, c.top_hotspots);

    let mut moved = base_surface();
    moved.top_hotspots = vec!["b.rs".into(), "a.rs".into()];
    assert!(!diff_surfaces(&b, &moved).is_empty());
}
