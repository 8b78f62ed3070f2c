use barad_dur::field_test::corpus::{
    check_corpus, parse_scope, resolve_path, select_entries, CorpusEntry, Scope,
};
use barad_dur::field_test::fetch::{
    fetch_step, is_allowed_url, validate_repository, FetchStep, RepositoryProblem,
};
use barad_dur::field_test::mode::{parse_mode, Mode};

#[test]
fn parse_mode_accepts_the_three_known_modes() {
    assert_eq!(parse_mode("run").unwrap(), Mode::Run);
    assert_eq!(parse_mode("accept").unwrap(), Mode::Accept);
    assert_eq!(parse_mode("audit").unwrap(), Mode::Audit);
}

#[test]
fn parse_mode_rejects_an_unrecognized_mode() {
    let err = parse_mode("acept").expect_err("typo must not silently pass through");
    let msg = err.message();
    assert!(msg.contains("acept"), "error must name the offending argument, got: {msg}");
    for valid in ["run", "accept", "audit"] {
        assert!(msg.contains(valid), "error must list valid mode {valid}, got: {msg}");
    }
}

#[test]
fn resolves_path_against_corpus_root() {
    let entry = CorpusEntry {
        name: "ripgrep".into(),
        path: "ripgrep".into(),
        pin: "3fce3b5b".into(),
        lang: "Rust".into(),
        url: None,
    };
    assert_eq!(resolve_path(&entry, "/home/edouard/WS"), "/home/edouard/WS/ripgrep");
}

#[test]
fn scope_parses_from_the_environment_value() {
    assert_eq!(parse_scope(None).unwrap(), Scope::All);
    assert_eq!(parse_scope(Some("all")).unwrap(), Scope::All);
    assert_eq!(parse_scope(Some("public")).unwrap(), Scope::Public);
    assert!(parse_scope(Some("remote")).is_err());
}

fn entry(name: &str, url: Option<&str>) -> CorpusEntry {
    CorpusEntry {
        name: name.into(),
        path: name.into(),
        pin: "deadbeef".into(),
        lang: "Rust".into(),
        url: url.map(|u| u.to_string()),
    }
}

#[test]
fn public_scope_keeps_only_entries_with_a_url() {
    let entries = vec![
        entry("ripgrep", Some("https://github.com/BurntSushi/ripgrep.git")),
        entry("private-app", None),
    ];
    let public = select_entries(entries.clone(), Scope::Public);
    assert_eq!(public.len(), 1);
    assert_eq!(public[0].name, "ripgrep");
    assert_eq!(select_entries(entries, Scope::All).len(), 2);
}

#[test]
fn an_empty_corpus_is_rejected() {
    assert!(check_corpus(Vec::new()).is_err());
    assert_eq!(check_corpus(vec![entry("a", None)]).unwrap().len(), 1);
}

#[test]
fn an_absolute_entry_path_replaces_the_root() {
    let mut e = entry("x", None);
    e.path = "/abs/x".into();
    assert_eq!(resolve_path(&e, "/root"), "/abs/x");
}

#[test]
fn only_safe_transports_are_cloned() {
    assert!(is_allowed_url("https://github.com/a/b.git"));
    assert!(is_allowed_url("git@github.com:a/b.git"));
    assert!(!is_allowed_url("ext::sh -c touch% /tmp/pwned"));
    assert!(!is_allowed_url("-uhttps://x"));
    assert_eq!(fetch_step(&entry("a", Some("fd::17")), false), FetchStep::ForbiddenUrl);
    assert_eq!(fetch_step(&entry("a", None), false), FetchStep::MissingWithoutUrl);
    assert_eq!(fetch_step(&entry("a", Some("https://x")), false), FetchStep::Clone);
    assert_eq!(fetch_step(&entry("a", None), true), FetchStep::Validate);
}

#[test]
fn a_checkout_is_valid_only_as_a_work_tree_holding_the_pin() {
    assert_eq!(validate_repository("true", true), Ok(()));
    assert_eq!(validate_repository("true", false), Err(RepositoryProblem::MissingPin));
    assert_eq!(validate_repository("false", true), Err(RepositoryProblem::NotAWorkTree));
}

#[test]
fn an_unknown_plain_mode_is_quoted_unchanged_in_the_message() {
    let err = parse_mode("acept").expect_err("not a mode");
    assert_eq!(
        err.message(),
        "unrecognized mode \"acept\" \u{2014} expected one of: run, accept, audit"
    );
}
