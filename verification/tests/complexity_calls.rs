use barad_dur::metrics::complexity::calls::{extract_call_edges, RawCallEdge, RawCalleeRef};
use barad_dur::metrics::complexity::queries::JS_FUNCTIONS;
use barad_dur::metrics::complexity::treesitter::collect_matches;
use barad_dur::metrics::complexity::ts::{parse, Grammar};

fn edges(name: &str, src: &str) -> Vec<RawCallEdge> {
    extract_call_edges(name, src)
}

#[test]
fn imported_call_records_specifier_with_alias_unwrapped() {
    let src = "import { compute as c } from './tax';\nc(1);\n";
    let e = edges("src/a.ts", src);
    assert_eq!(
        e,
        vec![RawCallEdge {
            caller: "<toplevel>".into(),
            callee: RawCalleeRef::Specifier {
                specifier: "./tax".into(),
                name: "compute".into(),
            },
            count: 1,
        }]
    );
}

#[test]
fn method_call_on_value_is_unresolved_with_method_name() {
    let e = edges("src/a.ts", "function mk() {}\nconst x = mk();\nx.save();\n");
    assert_eq!(
        e,
        vec![
            RawCallEdge {
                caller: "<toplevel>".into(),
                callee: RawCalleeRef::SameFile("mk".into()),
                count: 1,
            },
            RawCallEdge {
                caller: "<toplevel>".into(),
                callee: RawCalleeRef::Unresolved {
                    name: "save".into()
                },
                count: 1,
            },
        ]
    );
}

#[test]
fn computed_callee_is_unresolved_dynamic() {
    let e = edges("src/a.ts", "fns[k]();\n");
    assert_eq!(
        e,
        vec![RawCallEdge {
            caller: "<toplevel>".into(),
            callee: RawCalleeRef::Unresolved {
                name: "<dynamic>".into()
            },
            count: 1,
        }]
    );
}

#[test]
fn direct_namespace_receiver_resolves_to_specifier() {
    let src = "import * as h from './helpers';\nh.run();\n";
    let e = edges("src/a.ts", src);
    assert_eq!(
        e,
        vec![RawCallEdge {
            caller: "<toplevel>".into(),
            callee: RawCalleeRef::Specifier {
                specifier: "./helpers".into(),
                name: "run".into(),
            },
            count: 1,
        }]
    );
}

#[test]
fn deep_namespace_receiver_stays_unresolved() {
    // D4: only a *direct* namespace receiver qualifies — `h.a.b()`
    // reaches through a nested object we can't statically follow.
    let src = "import * as h from './helpers';\nh.a.b();\n";
    let e = edges("src/a.ts", src);
    assert_eq!(
        e,
        vec![RawCallEdge {
            caller: "<toplevel>".into(),
            callee: RawCalleeRef::Unresolved { name: "b".into() },
            count: 1,
        }]
    );
}

#[test]
fn constructor_call_classifies_like_identifier_call() {
    // D3: `new Foo()` follows the same binding rules as `foo()`.
    let src = "import { Foo } from './foo';\nclass Local {}\nnew Foo();\nnew Local();\n";
    let e = edges("src/a.ts", src);
    assert_eq!(
        e,
        vec![
            RawCallEdge {
                caller: "<toplevel>".into(),
                callee: RawCalleeRef::SameFile("Local".into()),
                count: 1,
            },
            RawCallEdge {
                caller: "<toplevel>".into(),
                callee: RawCalleeRef::Specifier {
                    specifier: "./foo".into(),
                    name: "Foo".into(),
                },
                count: 1,
            },
        ]
    );
}

#[test]
fn call_attributes_to_enclosing_function() {
    let e = edges(
        "src/a.ts",
        "function helper() {}\nfunction outer() { helper(); }\n",
    );
    assert_eq!(
        e,
        vec![RawCallEdge {
            caller: "outer".into(),
            callee: RawCalleeRef::SameFile("helper".into()),
            count: 1,
        }]
    );
}

#[test]
fn nested_function_call_attributes_to_innermost() {
    let src = "function helper() {}\nfunction outer() {\n  function inner() { helper(); }\n}\n";
    let e = edges("src/a.ts", src);
    assert_eq!(
        e,
        vec![RawCallEdge {
            caller: "inner".into(),
            callee: RawCalleeRef::SameFile("helper".into()),
            count: 1,
        }]
    );
}

#[test]
fn method_call_site_attributes_to_method_name() {
    let src = "function helper() {}\nclass A {\n  render() { helper(); }\n}\n";
    let e = edges("src/a.ts", src);
    assert_eq!(
        e,
        vec![RawCallEdge {
            caller: "render".into(),
            callee: RawCalleeRef::SameFile("helper".into()),
            count: 1,
        }]
    );
}

#[test]
fn call_inside_anonymous_arrow_attributes_to_toplevel() {
    // D2: arrows have no FunctionMetrics identity — the walk passes
    // through them to the nearest *named* function or "<toplevel>".
    let e = edges(
        "src/a.ts",
        "function helper() {}\nconst go = () => { helper(); };\n",
    );
    assert_eq!(
        e,
        vec![RawCallEdge {
            caller: "<toplevel>".into(),
            callee: RawCalleeRef::SameFile("helper".into()),
            count: 1,
        }]
    );
}

#[test]
fn repeated_calls_aggregate_onto_one_counted_edge() {
    // D5: sites collapse to edges — kills `+= 1` → `= 1` mutants.
    let e = edges("src/a.ts", "function f() {}\nf();\nf();\nf();\n");
    assert_eq!(
        e,
        vec![RawCallEdge {
            caller: "<toplevel>".into(),
            callee: RawCalleeRef::SameFile("f".into()),
            count: 3,
        }]
    );
}

#[test]
fn callback_reference_produces_no_edge() {
    // A function passed as a value is not a call — only the `.map`
    // call itself is recorded. Kills mutants that widen extraction
    // to argument identifiers.
    let e = edges("src/a.ts", "arr.map(transform);\n");
    assert_eq!(
        e,
        vec![RawCallEdge {
            caller: "<toplevel>".into(),
            callee: RawCalleeRef::Unresolved { name: "map".into() },
            count: 1,
        }]
    );
}

#[test]
fn default_import_call_records_specifier() {
    let e = edges("src/a.ts", "import f from './f';\nf();\n");
    assert_eq!(
        e,
        vec![RawCallEdge {
            caller: "<toplevel>".into(),
            callee: RawCalleeRef::Specifier {
                specifier: "./f".into(),
                name: "f".into(),
            },
            count: 1,
        }]
    );
}

#[test]
fn non_jsts_files_yield_no_edges() {
    assert!(edges("src/lib.rs", "fn f() {}\nfn g() { f(); }\n").is_empty());
}

#[test]
fn edges_are_sorted_deterministically() {
    let src = "function z() { b(); a(); }\nfunction a() {}\nfunction b() {}\nz();\n";
    let e = edges("src/a.ts", src);
    let callees: Vec<&RawCalleeRef> = e.iter().map(|r| &r.callee).collect();
    assert_eq!(
        callees,
        vec![
            &RawCalleeRef::SameFile("z".into()),
            &RawCalleeRef::SameFile("a".into()),
            &RawCalleeRef::SameFile("b".into()),
        ],
        "sorted by caller (<toplevel> before z), then callee: {e:?}"
    );
}

#[test]
fn named_import_receiver_is_not_a_namespace() {
    // Only `import * as h` receivers resolve (D4) — a *named* import
    // binding used as a receiver is a value whose members we can't
    // follow (kills the namespace_import kind-check inversion mutant).
    let src = "import { h } from './x';\nh.run();\n";
    let e = edges("src/a.ts", src);
    assert_eq!(
        e,
        vec![RawCallEdge {
            caller: "<toplevel>".into(),
            callee: RawCalleeRef::Unresolved { name: "run".into() },
            count: 1,
        }]
    );
}

#[test]
fn edge_sort_is_not_input_order() {
    // Call sites appear in REVERSE of the sorted output — a degenerate
    // sort key (any constant) would keep AST order via stable sort.
    let e = edges(
        "src/a.ts",
        "function b() {}\nfunction a() {}\no.save();\nb();\na();\n",
    );
    let callees: Vec<&RawCalleeRef> = e.iter().map(|r| &r.callee).collect();
    assert_eq!(
        callees,
        vec![
            &RawCalleeRef::SameFile("a".into()),
            &RawCalleeRef::SameFile("b".into()),
            &RawCalleeRef::Unresolved {
                name: "save".into()
            },
        ]
    );
}

#[test]
fn unbound_global_calls_are_unresolved_not_same_file() {
    // `fetch`, `setTimeout`, … are neither import-bound nor
    // declared in the file — claiming SameFile would inflate the
    // resolution rate and surface phantom hubs.
    let e = edges("src/a.ts", "fetch(u);\nsetTimeout(cb, 5);\n");
    assert_eq!(
        e,
        vec![
            RawCallEdge {
                caller: "<toplevel>".into(),
                callee: RawCalleeRef::Unresolved {
                    name: "fetch".into()
                },
                count: 1,
            },
            RawCallEdge {
                caller: "<toplevel>".into(),
                callee: RawCalleeRef::Unresolved {
                    name: "setTimeout".into()
                },
                count: 1,
            },
        ]
    );
}

#[test]
fn const_arrow_declaration_still_counts_as_same_file() {
    // A file-local `const f = () => …` is a real in-file target.
    let e = edges("src/a.ts", "const f = () => 1;\nf();\n");
    assert_eq!(
        e,
        vec![RawCallEdge {
            caller: "<toplevel>".into(),
            callee: RawCalleeRef::SameFile("f".into()),
            count: 1,
        }]
    );
}

#[test]
fn parameter_shadowing_an_import_downgrades_to_unresolved() {
    // The call targets the parameter, not './db' — a
    // resolved edge here would be fabricated.
    let src = "import { save } from './db';\n\
               export function retry(save: () => void) { save(); }\n";
    let e = edges("src/a.ts", src);
    assert_eq!(
        e,
        vec![RawCallEdge {
            caller: "retry".into(),
            callee: RawCalleeRef::Unresolved {
                name: "save".into()
            },
            count: 1,
        }]
    );
}

#[test]
fn local_declaration_shadowing_an_import_downgrades_to_unresolved() {
    let src = "import { save } from './db';\n\
               export function f() { const save = () => 1; save(); }\n";
    let e = edges("src/a.ts", src);
    assert_eq!(
        e,
        vec![RawCallEdge {
            caller: "f".into(),
            callee: RawCalleeRef::Unresolved {
                name: "save".into()
            },
            count: 1,
        }]
    );
}

#[test]
fn parameter_shadowing_a_namespace_import_downgrades_to_unresolved() {
    let src = "import * as h from './x';\nfunction g(h: any) { h.run(); }\n";
    let e = edges("src/a.ts", src);
    assert_eq!(
        e,
        vec![RawCallEdge {
            caller: "g".into(),
            callee: RawCalleeRef::Unresolved { name: "run".into() },
            count: 1,
        }]
    );
}

#[test]
fn unrelated_parameters_do_not_shadow_an_import() {
    // The shadow check must be scoped to the call's own ancestors —
    // a different function's parameter must not over-trigger it.
    let src = "import { save } from './db';\n\
               function other(save: any) {}\n\
               function g(x: any) { save(); }\n";
    let e = edges("src/a.ts", src);
    assert_eq!(
        e,
        vec![RawCallEdge {
            caller: "g".into(),
            callee: RawCalleeRef::Specifier {
                specifier: "./db".into(),
                name: "save".into(),
            },
            count: 1,
        }]
    );
}

#[test]
fn bare_local_call_is_same_file_from_toplevel() {
    let e = edges("src/a.ts", "function f() {}\nf();\n");
    assert_eq!(
        e,
        vec![RawCallEdge {
            caller: "<toplevel>".into(),
            callee: RawCalleeRef::SameFile("f".into()),
            count: 1,
        }]
    );
}

#[test]
fn caller_attribution_universe_matches_the_js_functions_query() {
    // Attribution's function kinds mirror the JS_FUNCTIONS capture set: one
    // call inside every candidate function shape; whatever the query
    // captures must be exactly the set of caller names attribution produces.
    let src = "function marker() {}\n\
               function decl() { marker(); }\n\
               class C { meth() { marker(); } }\n\
               function* gen() { marker(); }\n\
               const arrow = () => { marker(); };\n";
    let parsed = parse(src, Grammar::TypeScript).expect("parse");
    let (query, matches) = collect_matches(&parsed, src, JS_FUNCTIONS);
    assert!(query.is_some(), "valid query");
    let ts_lang: tree_sitter::Language = tree_sitter_typescript::LANGUAGE_TYPESCRIPT.into();
    let ts_query = tree_sitter::Query::new(&ts_lang, JS_FUNCTIONS).expect("valid query");
    let name_idx = ts_query
        .capture_names()
        .iter()
        .position(|n| *n == "name")
        .expect("@name capture") as u32;
    let query_names: std::collections::HashSet<String> = matches
        .iter()
        .flatten()
        .filter(|c| c.index == name_idx)
        .map(|c| src[c.start_byte..c.end_byte].to_string())
        .collect();

    let attributed_callers: std::collections::HashSet<String> = edges("src/a.ts", src)
        .into_iter()
        .map(|e| e.caller)
        .filter(|c| c != "<toplevel>")
        .collect();

    // `marker` is a declared function with no calls inside it — it
    // appears in the query universe but never as a caller.
    let expected: std::collections::HashSet<String> = query_names
        .iter()
        .filter(|n| n.as_str() != "marker")
        .cloned()
        .collect();
    assert_eq!(
        attributed_callers, expected,
        "attribution and JS_FUNCTIONS diverged"
    );
}
