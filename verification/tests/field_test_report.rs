use barad_dur::field_test::report::extract_surface;
use barad_dur::field_test::surface::HOTSPOT_LIMIT;
use barad_dur::json::Json;

fn obj(members: Vec<(&str, Json)>) -> Json {
    Json::Object(members.into_iter().map(|(k, v)| (k.to_string(), v)).collect())
}

fn num(n: i64) -> Json {
    Json::Number(Some(n))
}

fn text(s: &str) -> Json {
    Json::Str(s.to_string())
}

fn sample_report() -> Json {
    obj(vec![
        ("overall_score", num(55)),
        ("total_files", num(203)),
        ("total_commits", num(2287)),
        ("total_authors", num(27)),
        ("score_thresholds", obj(vec![("good_min", num(71)), ("warn_min", num(41))])),
        (
            "coupling_finding_counts",
            obj(vec![
                ("common", num(4)),
                ("content", num(2)),
                ("control", num(5)),
                ("inheritance", num(0)),
            ]),
        ),
        (
            "categories",
            Json::Array(vec![obj(vec![
                ("name", text("Health")),
                ("score", num(40)),
                (
                    "metrics",
                    Json::Array(vec![
                        obj(vec![
                            ("name", text("Bus factor")),
                            ("score", num(25)),
                            ("description", text("prose")),
                            ("raw_value", obj(vec![("Count", num(1))])),
                        ]),
                        obj(vec![
                            ("name", text("Churn-ownership risk")),
                            ("score", Json::Null),
                            ("description", text("prose")),
                            ("raw_value", Json::Null),
                        ]),
                    ]),
                ),
            ])]),
        ),
        (
            "top_actions",
            Json::Array(vec![obj(vec![
                ("target_tab", text("ownership")),
                ("text", text("[Team] Knowledge distribution")),
            ])]),
        ),
        (
            "coupling_actions",
            Json::Array(vec![obj(vec![
                ("target_tab", text("coupling")),
                ("text", text("[Coupling] mod.rs \u{2014} 2 finding(s)")),
            ])]),
        ),
        (
            "file_hotspots",
            Json::Array(vec![
                obj(vec![("path", text("crates/ignore/src/walk.rs")), ("hotspot_score", Json::Number(None))]),
                obj(vec![("path", text("crates/core/main.rs")), ("hotspot_score", num(40))]),
            ]),
        ),
        (
            "history",
            Json::Array(vec![obj(vec![
                ("timestamp", text("2026-09-01T12:00:00Z")),
                ("head", text("abc")),
            ])]),
        ),
    ])
}

#[test]
fn captures_scores_counts_and_thresholds() {
    let s = extract_surface(&sample_report());
    assert_eq!(s.overall_score, 55);
    assert_eq!(s.total_commits, 2287);
    assert_eq!(s.score_thresholds.get("good_min"), Some(71));
    assert_eq!(s.coupling_finding_counts.get("control"), Some(5));
}

#[test]
fn preserves_unscored_metrics_as_none() {
    let s = extract_surface(&sample_report());
    let health = &s.categories[0];
    assert_eq!(health.metrics[0].score, Some(25));
    assert_eq!(
        health.metrics[1].score, None,
        "an unscored metric must stay unscored, never become a number"
    );
}

#[test]
fn merges_both_action_lists_in_deterministic_order() {
    let s = extract_surface(&sample_report());
    assert_eq!(s.actions.len(), 2);
    assert_eq!(s.actions[0].target_tab, "coupling");
    assert_eq!(s.actions[1].target_tab, "ownership");
}

#[test]
fn keeps_hotspot_rank_order_and_caps_at_twenty() {
    let s = extract_surface(&sample_report());
    assert_eq!(
        s.top_hotspots,
        vec!["crates/ignore/src/walk.rs".to_string(), "crates/core/main.rs".to_string()]
    );
}

fn report_with_hotspots(paths: &[String]) -> Json {
    let hotspots: Vec<Json> = paths
        .iter()
        .enumerate()
        .map(|(i, path)| obj(vec![("path", text(path)), ("hotspot_score", num(100 - i as i64))]))
        .collect();
    obj(vec![("file_hotspots", Json::Array(hotspots))])
}

#[test]
fn caps_hotspots_at_twenty_when_more_than_twenty_are_present() {
    let paths: Vec<String> = (0..25).map(|i| format!("hot{i:02}.rs")).collect();
    let s = extract_surface(&report_with_hotspots(&paths));
    assert_eq!(s.top_hotspots.len(), 20, "must cap at HOTSPOT_LIMIT even when more are present");
    assert_eq!(HOTSPOT_LIMIT, 20);
    assert_eq!(s.top_hotspots.first(), Some(&"hot00.rs".to_string()));
    assert_eq!(s.top_hotspots.last(), Some(&"hot19.rs".to_string()));
}

#[test]
fn absent_fields_read_as_zero_and_empty() {
    let s = extract_surface(&obj(vec![("overall_score", Json::Number(None))]));
    assert_eq!(s.overall_score, 0);
    assert_eq!(s.total_files, 0);
    assert_eq!(s.score_thresholds.len(), 0);
    assert!(s.categories.is_empty());
    assert!(s.actions.is_empty());
    assert!(s.top_hotspots.is_empty());
}

#[test]
fn action_order_in_the_report_does_not_reach_the_surface() {
    let action = |tab: &str, t: &str| obj(vec![("target_tab", text(tab)), ("text", text(t))]);
    let a = obj(vec![
        ("top_actions", Json::Array(vec![action("b", "2"), action("a", "9")])),
        ("coupling_actions", Json::Array(vec![action("a", "1")])),
    ]);
    let b = obj(vec![
        ("top_actions", Json::Array(vec![action("a", "1")])),
        ("coupling_actions", Json::Array(vec![action("a", "9"), action("b", "2")])),
    ]);
    let sa = extract_surface(&a);
    let sb = extract_surface(&b);
    assert_eq!(sa.actions, sb.actions);
    let texts: Vec<&str> = sa.actions.iter().map(|x| x.text.as_str()).collect();
    assert_eq!(texts, vec!["1", "9", "2"]);
}

#[test]
fn non_integer_map_members_are_skipped() {
    let s = extract_surface(&obj(vec![(
        "score_thresholds",
        obj(vec![("a", num(1)), ("b", text("x")), ("c", Json::Number(None))]),
    )]));
    assert_eq!(s.score_thresholds.len(), 1);
    assert_eq!(s.score_thresholds.get("a"), Some(1));
    assert_eq!(s.score_thresholds.get("b"), None);
}
