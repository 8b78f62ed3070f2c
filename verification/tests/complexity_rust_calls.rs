use barad_dur::metrics::complexity::calls::{RawCallEdge, RawCalleeRef};
use barad_dur::metrics::complexity::rust_calls::rust_call_edges_from_tree;
use barad_dur::metrics::complexity::queries::RUST_FUNCTIONS;
use barad_dur::metrics::complexity::treesitter::collect_matches;
use barad_dur::metrics::complexity::ts::{parse, parse_source, Grammar};

/// The call edges of a Rust source file (`name` is where it would live).
fn edges(name: &str, src: &str) -> Vec<RawCallEdge> {
    assert!(name.ends_with(".rs"));
    let tree = parse_source(src, Grammar::Rust).expect("parse");
    rust_call_edges_from_tree(&tree)
}

#[test]
fn use_bound_call_records_module_specifier() {
    let src = "use crate::metrics::median;\nfn f() { median(); }\n";
    let e = edges("src/lib.rs", src);
    assert_eq!(
        e,
        vec![RawCallEdge {
            caller: "f".into(),
            callee: RawCalleeRef::Specifier {
                specifier: "crate::metrics".into(),
                name: "median".into(),
            },
            count: 1,
        }]
    );
}

#[test]
fn aliased_use_unwraps_to_original_name() {
    let src = "use crate::metrics::median as mid;\nfn f() { mid(); }\n";
    let e = edges("src/lib.rs", src);
    assert_eq!(
        e,
        vec![RawCallEdge {
            caller: "f".into(),
            callee: RawCalleeRef::Specifier {
                specifier: "crate::metrics".into(),
                name: "median".into(),
            },
            count: 1,
        }]
    );
}

#[test]
fn use_list_and_nested_groups_bind_each_name() {
    let src = "use crate::a::{f, g as h, b::k};\nfn r() { f(); h(); k(); }\n";
    let e = edges("src/lib.rs", src);
    let spec = |s: &str, n: &str| RawCalleeRef::Specifier {
        specifier: s.into(),
        name: n.into(),
    };
    let callees: Vec<&RawCalleeRef> = e.iter().map(|r| &r.callee).collect();
    assert_eq!(
        callees,
        vec![
            &spec("crate::a", "f"),
            &spec("crate::a", "g"),
            &spec("crate::a::b", "k"),
        ]
    );
}

#[test]
fn fully_qualified_crate_call_records_module_specifier() {
    let src = "fn f() { crate::metrics::median(); }\n";
    let e = edges("src/lib.rs", src);
    assert_eq!(
        e,
        vec![RawCallEdge {
            caller: "f".into(),
            callee: RawCalleeRef::Specifier {
                specifier: "crate::metrics".into(),
                name: "median".into(),
            },
            count: 1,
        }]
    );
}

#[test]
fn use_bound_module_head_expands_to_full_path() {
    let src = "use crate::metrics;\nfn f() { metrics::median(); }\n";
    let e = edges("src/lib.rs", src);
    assert_eq!(
        e,
        vec![RawCallEdge {
            caller: "f".into(),
            callee: RawCalleeRef::Specifier {
                specifier: "crate::metrics".into(),
                name: "median".into(),
            },
            count: 1,
        }]
    );
}

#[test]
fn assoc_fn_on_in_file_type_is_same_file() {
    let src = "struct Foo;\nimpl Foo { fn new() -> Self { Foo } }\nfn f() { Foo::new(); }\n";
    let e = edges("src/lib.rs", src);
    assert_eq!(
        e,
        vec![RawCallEdge {
            caller: "f".into(),
            callee: RawCalleeRef::SameFile("new".into()),
            count: 1,
        }]
    );
}

#[test]
fn assoc_fn_on_use_bound_type_targets_declaring_module() {
    // `use crate::x::Foo; Foo::new()` — the file declaring Foo is the
    // module file crate::x (capitalization convention: the segment
    // before the method is a type, not a module).
    let src = "use crate::x::Foo;\nfn f() { Foo::new(); }\n";
    let e = edges("src/lib.rs", src);
    assert_eq!(
        e,
        vec![RawCallEdge {
            caller: "f".into(),
            callee: RawCalleeRef::Specifier {
                specifier: "crate::x".into(),
                name: "new".into(),
            },
            count: 1,
        }]
    );
}

#[test]
fn self_type_assoc_call_is_same_file() {
    let src = "struct A;\nimpl A { fn go(&self) { Self::helper(); }\n fn helper() {} }\n";
    let e = edges("src/lib.rs", src);
    assert_eq!(
        e,
        vec![RawCallEdge {
            caller: "go".into(),
            callee: RawCalleeRef::SameFile("helper".into()),
            count: 1,
        }]
    );
}

#[test]
fn unexpandable_head_stays_a_specifier_for_honest_failure() {
    // `super::x::f()` — resolve_rust_import can't map super paths, so
    // the collector will downgrade to Unresolved; extraction still
    // emits the fact rather than guessing.
    let src = "fn f() { super::progress::tick(); }\n";
    let e = edges("src/lib.rs", src);
    assert_eq!(
        e,
        vec![RawCallEdge {
            caller: "f".into(),
            callee: RawCalleeRef::Specifier {
                specifier: "super::progress".into(),
                name: "tick".into(),
            },
            count: 1,
        }]
    );
}

#[test]
fn method_calls_are_unresolved_with_method_name() {
    let src = "fn f(x: Vec<u32>) { x.sort(); self.tick(); }\n";
    let e = edges("src/lib.rs", src);
    let callees: Vec<&RawCalleeRef> = e.iter().map(|r| &r.callee).collect();
    assert_eq!(
        callees,
        vec![
            &RawCalleeRef::Unresolved {
                name: "sort".into()
            },
            &RawCalleeRef::Unresolved {
                name: "tick".into()
            },
        ]
    );
}

#[test]
fn macro_invocations_produce_no_edges() {
    // `format!` is not a call edge, and calls inside a macro's token
    // tree are not parsed as call_expressions (documented under-count).
    let src = "fn helper() -> u32 { 1 }\nfn f() { println!(\"{}\", helper()); }\n";
    assert!(edges("src/lib.rs", src).is_empty());
}

#[test]
fn prelude_names_are_unresolved() {
    let e = edges("src/lib.rs", "fn f() { drop(1); }\n");
    assert_eq!(
        e,
        vec![RawCallEdge {
            caller: "f".into(),
            callee: RawCalleeRef::Unresolved {
                name: "drop".into()
            },
            count: 1,
        }]
    );
}

#[test]
fn generic_turbofish_call_classifies_its_function() {
    let src = "fn helper<T>(x: T) {}\nfn f() { helper::<u32>(1); }\n";
    let e = edges("src/lib.rs", src);
    assert_eq!(
        e,
        vec![RawCallEdge {
            caller: "f".into(),
            callee: RawCalleeRef::SameFile("helper".into()),
            count: 1,
        }]
    );
}

#[test]
fn closure_calls_attribute_to_enclosing_named_fn() {
    let src = "fn helper() {}\nfn f() { let go = || helper(); go(); }\n";
    let e = edges("src/lib.rs", src);
    // helper() inside the closure attributes to f; go() is a call to
    // a let-bound closure — declared as a local, hence Unresolved
    // (not a file-level target).
    assert_eq!(e.len(), 2, "{e:?}");
    assert_eq!(e[0].caller, "f");
    assert_eq!(e[0].callee, RawCalleeRef::SameFile("helper".into()));
    assert_eq!(e[1].caller, "f");
}

#[test]
fn const_initializer_call_attributes_to_toplevel() {
    let src = "fn init() -> u32 { 1 }\nstatic X: u32 = init();\n";
    let e = edges("src/lib.rs", src);
    assert_eq!(
        e,
        vec![RawCallEdge {
            caller: "<toplevel>".into(),
            callee: RawCalleeRef::SameFile("init".into()),
            count: 1,
        }]
    );
}

#[test]
fn repeated_calls_aggregate_counts() {
    let src = "fn helper() {}\nfn f() { helper(); helper(); helper(); }\n";
    let e = edges("src/lib.rs", src);
    assert_eq!(e[0].count, 3);
    assert_eq!(e.len(), 1);
}

#[test]
fn parameter_shadowing_a_use_binding_downgrades_to_unresolved() {
    // As for TS/JS: the call targets the parameter.
    let src = "use crate::db::save;\nfn retry(save: fn()) { save(); }\n";
    let e = edges("src/lib.rs", src);
    assert_eq!(
        e,
        vec![RawCallEdge {
            caller: "retry".into(),
            callee: RawCalleeRef::Unresolved {
                name: "save".into()
            },
            count: 1,
        }]
    );
}

#[test]
fn let_binding_shadowing_downgrades_to_unresolved() {
    let src = "use crate::db::save;\nfn f() { let save = || 1; save(); }\n";
    let e = edges("src/lib.rs", src);
    assert_eq!(
        e,
        vec![RawCallEdge {
            caller: "f".into(),
            callee: RawCalleeRef::Unresolved {
                name: "save".into()
            },
            count: 1,
        }]
    );
}

#[test]
fn unrelated_fn_params_do_not_shadow() {
    let src = "use crate::db::save;\nfn other(save: fn()) {}\nfn f() { save(); }\n";
    let e = edges("src/lib.rs", src);
    assert_eq!(
        e,
        vec![RawCallEdge {
            caller: "f".into(),
            callee: RawCalleeRef::Specifier {
                specifier: "crate::db".into(),
                name: "save".into(),
            },
            count: 1,
        }]
    );
}

#[test]
fn bare_declared_call_is_same_file_with_fn_attribution() {
    let src = "fn helper() {}\nfn run() { helper(); }\n";
    let e = edges("src/lib.rs", src);
    assert_eq!(
        e,
        vec![RawCallEdge {
            caller: "run".into(),
            callee: RawCalleeRef::SameFile("helper".into()),
            count: 1,
        }]
    );
}

#[test]
fn glob_use_binds_nothing_so_calls_stay_unresolved() {
    let e = edges("src/lib.rs", "use crate::util::*;\nfn f() { tidy(); }\n");
    assert_eq!(
        e,
        vec![RawCallEdge {
            caller: "f".into(),
            callee: RawCalleeRef::Unresolved { name: "tidy".into() },
            count: 1,
        }]
    );
}

#[test]
fn single_segment_use_is_unresolved_under_its_own_name() {
    let e = edges("src/lib.rs", "use log;\nfn f() { log(); }\n");
    assert_eq!(
        e,
        vec![RawCallEdge {
            caller: "f".into(),
            callee: RawCalleeRef::Unresolved { name: "log".into() },
            count: 1,
        }]
    );
}

#[test]
fn path_through_a_type_targets_the_module_declaring_it() {
    let e = edges("src/lib.rs", "fn f() { crate::x::Foo::new(); }\n");
    assert_eq!(
        e,
        vec![RawCallEdge {
            caller: "f".into(),
            callee: RawCalleeRef::Specifier {
                specifier: "crate::x".into(),
                name: "new".into(),
            },
            count: 1,
        }]
    );
}

#[test]
fn undeclared_bare_type_call_is_unresolved() {
    let e = edges("src/lib.rs", "fn f() { Vec::new(); }\n");
    assert_eq!(
        e,
        vec![RawCallEdge {
            caller: "f".into(),
            callee: RawCalleeRef::Unresolved { name: "new".into() },
            count: 1,
        }]
    );
}

#[test]
fn aliased_use_inside_a_group_binds_the_alias() {
    let src = "use crate::{db::{save as persist}, io};\nfn f() { persist(); io::read(); }\n";
    let e = edges("src/lib.rs", src);
    let callees: Vec<&RawCalleeRef> = e.iter().map(|r| &r.callee).collect();
    assert_eq!(
        callees,
        vec![
            &RawCalleeRef::Specifier {
                specifier: "crate::db".into(),
                name: "save".into(),
            },
            &RawCalleeRef::Specifier {
                specifier: "crate::io".into(),
                name: "read".into(),
            },
        ]
    );
}

#[test]
fn the_later_use_of_a_name_wins() {
    let src = "use crate::a::run;\nuse crate::b::run;\nfn f() { run(); }\n";
    let e = edges("src/lib.rs", src);
    assert_eq!(
        e[0].callee,
        RawCalleeRef::Specifier {
            specifier: "crate::b".into(),
            name: "run".into(),
        }
    );
}


#[test]
fn caller_attribution_universe_matches_the_rust_functions_query() {
    // Attribution's function kinds mirror what RUST_FUNCTIONS captures:
    // one call inside every candidate shape; the query's names must equal
    // the attributed callers exactly.
    let src = "fn marker() {}\n\
               fn free() { marker(); }\n\
               struct S;\n\
               impl S { fn method(&self) { marker(); } }\n\
               static X: fn() = || { marker(); };\n";
    let parsed = parse(src, Grammar::Rust).expect("parse");
    let (query, matches) = collect_matches(&parsed, src, RUST_FUNCTIONS);
    assert!(query.is_some(), "valid query");
    let rs_lang: tree_sitter::Language = tree_sitter_rust::LANGUAGE.into();
    let rs_query = tree_sitter::Query::new(&rs_lang, RUST_FUNCTIONS).expect("valid query");
    let name_idx = rs_query
        .capture_names()
        .iter()
        .position(|n| *n == "name")
        .expect("@name capture") as u32;
    let query_names: std::collections::HashSet<String> = matches
        .iter()
        .flatten()
        .filter(|c| c.index == name_idx)
        .map(|c| src[c.start_byte..c.end_byte].to_string())
        .collect();
    let attributed: std::collections::HashSet<String> = edges("src/lib.rs", src)
        .into_iter()
        .map(|e| e.caller)
        .filter(|c| c != "<toplevel>")
        .collect();
    let expected: std::collections::HashSet<String> = query_names
        .iter()
        .filter(|n| n.as_str() != "marker")
        .cloned()
        .collect();
    assert_eq!(
        attributed, expected,
        "attribution and RUST_FUNCTIONS diverged"
    );
}

#[test]
fn deeply_nested_use_groups_still_bind_their_names() {
    let mut tree = String::from("c");
    for i in 0..2_000 {
        tree = format!("m{i}::{{{tree}}}");
    }
    let src = format!("use crate::{tree};\nfn f() {{ c(); }}\n");
    let e = edges("src/lib.rs", &src);
    assert_eq!(e.len(), 1);
    match &e[0].callee {
        RawCalleeRef::Specifier { specifier, name } => {
            assert_eq!(name, "c");
            assert!(specifier.starts_with("crate::m1999::m1998::"));
            assert!(specifier.ends_with("::m1::m0"));
        }
        other => panic!("unexpected callee {other:?}"),
    }
}
