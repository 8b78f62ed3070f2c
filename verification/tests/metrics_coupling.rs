use barad_dur::metrics::coupling::{
    afferent_coupling, circular_dependencies, compute_coupling, efferent_coupling,
    find_cycle_pairs, sort_degrees, summarize, ImportGraph,
};

fn graph(entries: &[(&str, &[&str])]) -> ImportGraph {
    let mut g = ImportGraph::new();
    for (file, imports) in entries {
        g.insert(
            file.to_string(),
            imports.iter().map(|t| t.to_string()).collect(),
        );
    }
    g
}

fn names(list: &[&str]) -> Vec<String> {
    list.iter().map(|s| s.to_string()).collect()
}

#[test]
fn afferent_coupling_empty_graph() {
    let g = ImportGraph::new();
    let result = afferent_coupling(&g, &Vec::new());
    assert_eq!(result.score, 100);
    assert!(result.summary.is_none());
    assert_eq!(result.name, "Afferent coupling");
}

#[test]
fn afferent_coupling_single_hub_scores_well() {
    // 20 files import core.rs; 21 files in all, so the median is 0.
    let mut g = ImportGraph::new();
    let mut files = vec!["core.rs".to_string()];
    for i in 0..20 {
        let name = format!("f{}.rs", i);
        files.push(name.clone());
        g.insert(name, vec!["core.rs".to_string()]);
    }
    let result = afferent_coupling(&g, &files);
    assert_eq!(result.score, 100);
    let s = result.summary.unwrap();
    assert_eq!(s.twice_median, 0);
    assert_eq!(s.max, 20);
    assert_eq!(s.total, 20);
    assert_eq!(s.files, 21);
}

#[test]
fn afferent_coupling_widespread_deps_scores_lower() {
    // 10 files, each imported by the 9 others.
    let mut g = ImportGraph::new();
    let mut files = Vec::new();
    for i in 0..10 {
        files.push(format!("f{}.rs", i));
        let targets: Vec<String> = (0..10)
            .filter(|&j| j != i)
            .map(|j| format!("f{}.rs", j))
            .collect();
        g.insert(format!("f{}.rs", i), targets);
    }
    let result = afferent_coupling(&g, &files);
    assert!(result.score <= 50, "score={}, expected <=50", result.score);
    assert_eq!(result.score, 50);
    assert_eq!(result.summary.unwrap().twice_median, 18);
}

#[test]
fn afferent_coupling_summary_shows_distribution() {
    let mut g = ImportGraph::new();
    let mut files = vec!["core.rs".to_string()];
    for i in 0..5 {
        let name = format!("f{}.rs", i);
        files.push(name.clone());
        g.insert(name, vec!["core.rs".to_string()]);
    }
    let s = afferent_coupling(&g, &files).summary.unwrap();
    assert_eq!(s.twice_median, 0);
    assert_eq!(s.total, 5);
    assert_eq!(s.files, 6);
    assert_eq!(s.max, 5);
}

#[test]
fn efferent_coupling_empty_graph() {
    let g = ImportGraph::new();
    let result = efferent_coupling(&g, &Vec::new());
    assert_eq!(result.score, 100);
    assert!(result.summary.is_none());
    assert_eq!(result.name, "Efferent coupling");
}

#[test]
fn efferent_coupling_single_heavy_file_scores_well() {
    let mut g = ImportGraph::new();
    let mut files = vec!["main.rs".to_string()];
    g.insert(
        "main.rs".to_string(),
        (0..25).map(|i| format!("dep{}.rs", i)).collect(),
    );
    for i in 0..25 {
        files.push(format!("dep{}.rs", i));
    }
    for i in 0..10 {
        let name = format!("small{}.rs", i);
        files.push(name.clone());
        g.insert(name, vec!["util.rs".to_string()]);
    }
    let result = efferent_coupling(&g, &files);
    assert_eq!(result.score, 100);
    let s = result.summary.unwrap();
    assert_eq!(s.max, 25);
    assert_eq!(s.total, 35);
    assert_eq!(s.files, 36);
}

#[test]
fn efferent_coupling_all_heavy_scores_low() {
    let mut g = ImportGraph::new();
    let mut files = Vec::new();
    for i in 0..10 {
        let name = format!("f{}.rs", i);
        files.push(name.clone());
        g.insert(name, (0..15).map(|j| format!("dep{}_{}.rs", i, j)).collect());
    }
    let result = efferent_coupling(&g, &files);
    assert_eq!(result.score, 25);
    assert_eq!(result.summary.unwrap().twice_median, 30);
}

#[test]
fn efferent_coupling_summary_shows_distribution() {
    let g = graph(&[("a.rs", &["b.rs", "c.rs"])]);
    let s = efferent_coupling(&g, &names(&["a.rs", "b.rs", "c.rs"]))
        .summary
        .unwrap();
    assert_eq!(s.twice_median, 0);
    assert_eq!(s.max, 2);
    assert_eq!(s.total, 2);
    assert_eq!(s.files, 3);
}

#[test]
fn median_of_an_even_count_is_the_mean_of_the_middle_two() {
    let s = summarize(vec![7, 1, 4, 2]);
    assert_eq!(s.twice_median, 6);
    assert_eq!(s.max, 7);
    assert_eq!(s.total, 14);
    assert_eq!(s.files, 4);
    let odd = summarize(vec![9, 3, 5]);
    assert_eq!(odd.twice_median, 10);
}

#[test]
fn sort_degrees_orders_and_keeps_every_value() {
    assert_eq!(sort_degrees(vec![3, 1, 2, 1, 0]), vec![0, 1, 1, 2, 3]);
    assert_eq!(sort_degrees(Vec::new()), Vec::<usize>::new());
}

#[test]
fn afferent_score_bands_follow_the_median() {
    // Median 2.5 (twice: 5) scores 75.
    let g = graph(&[("x.rs", &["a.rs", "a.rs", "b.rs", "b.rs", "b.rs"])]);
    let result = afferent_coupling(&g, &names(&["a.rs", "b.rs"]));
    assert_eq!(result.summary.unwrap().twice_median, 5);
    assert_eq!(result.score, 75);
}

#[test]
fn paths_that_name_the_same_file_are_one_entry() {
    let mut g = ImportGraph::new();
    g.insert("src/a.rs".to_string(), names(&["b.rs"]));
    g.insert("src//a.rs".to_string(), names(&["c.rs", "d.rs"]));
    assert_eq!(g.len(), 1);
    assert_eq!(g.get("src/a.rs").unwrap(), &names(&["c.rs", "d.rs"]));
    assert_eq!(g.entry(0).0, "src/a.rs");
}

#[test]
fn circular_deps_none() {
    let g = graph(&[("a.rs", &["b.rs"])]);
    let result = circular_dependencies(&g);
    assert_eq!(result.score, 100);
    assert_eq!(result.description, "0 circular dependency pairs detected");
    assert!(result.listed.is_empty());
}

#[test]
fn circular_deps_direct() {
    let g = graph(&[("b.rs", &["a.rs"]), ("a.rs", &["b.rs"])]);
    let result = circular_dependencies(&g);
    assert_eq!(result.score, 75);
    assert_eq!(
        result.pairs,
        vec![("a.rs".to_string(), "b.rs".to_string())]
    );
    assert_eq!(result.listed, names(&["a.rs <-> b.rs"]));
    assert_eq!(result.description, "1 circular dependency pairs detected");
    assert_eq!(result.name, "Circular dependencies");
}

#[test]
fn circular_deps_transitive_depth2() {
    let g = graph(&[
        ("a.rs", &["b.rs"]),
        ("b.rs", &["c.rs"]),
        ("c.rs", &["a.rs"]),
    ]);
    let result = circular_dependencies(&g);
    assert!(result.score < 100, "should detect depth-2 cycle");
    assert_eq!(
        result.pairs,
        vec![("a.rs".to_string(), "b.rs".to_string())]
    );
}

#[test]
fn three_file_cycle_is_named_by_its_two_lowest_paths() {
    let g = graph(&[
        ("z.rs", &["m.rs"]),
        ("m.rs", &["b.rs"]),
        ("b.rs", &["z.rs"]),
    ]);
    let pairs = find_cycle_pairs(&g);
    assert_eq!(pairs, vec![("b.rs".to_string(), "m.rs".to_string())]);
}

#[test]
fn circular_deps_many() {
    let mut g = ImportGraph::new();
    for i in 0..6 {
        let a = format!("a{}.rs", i);
        let b = format!("b{}.rs", i);
        g.insert(a.clone(), vec![b.clone()]);
        g.insert(b, vec![a]);
    }
    let result = circular_dependencies(&g);
    assert_eq!(result.score, 25);
    assert_eq!(result.pairs.len(), 6);
    assert_eq!(result.listed.len(), 6);
}

#[test]
fn at_most_ten_cycle_pairs_are_listed() {
    let mut g = ImportGraph::new();
    for i in 0..12 {
        let a = format!("a{:02}.rs", i);
        let b = format!("b{:02}.rs", i);
        g.insert(a.clone(), vec![b.clone()]);
        g.insert(b, vec![a]);
    }
    let result = circular_dependencies(&g);
    assert_eq!(result.pairs.len(), 12);
    assert_eq!(result.listed.len(), 10);
    assert_eq!(result.listed[0], "a00.rs <-> b00.rs");
    assert_eq!(result.description, "12 circular dependency pairs detected");
}

#[test]
fn compute_coupling_returns_three_metrics() {
    let g = ImportGraph::new();
    let result = compute_coupling(&g, &Vec::new());
    assert_eq!(result.name, "Coupling");
    assert_eq!(result.afferent.name, "Afferent coupling");
    assert_eq!(result.efferent.name, "Efferent coupling");
    assert_eq!(result.circular.name, "Circular dependencies");
    assert_eq!(result.afferent.score, 100);
    assert_eq!(result.efferent.score, 100);
    assert_eq!(result.circular.score, 100);
}
