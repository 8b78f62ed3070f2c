use barad_dur::field_test::surface::IntMap;
use barad_dur::json::{int_at, items_at, text_at, Json};
use barad_dur::metrics::complexity::calls::{extract_call_edges, RawCalleeRef};
use barad_dur::metrics::complexity::fallback::Language;
use barad_dur::metrics::complexity::inheritance::extract_class_records;
use barad_dur::metrics::complexity::lang_dispatch::{comment_query, complexity_queries, import_query};
use barad_dur::metrics::complexity::queries::{JS_COMMENTS, RUST_COMPLEXITY, RUST_IMPORTS};
use barad_dur::metrics::complexity::{analyse_file, extract_file_imports};

#[test]
fn int_map_reads_back_what_was_written_last() {
    let mut m = IntMap::new();
    m.insert("b".to_string(), 2);
    m.insert("a".to_string(), 1);
    m.insert("b".to_string(), 3);
    assert_eq!(m.get("a"), Some(1));
    assert_eq!(m.get("b"), Some(3));
    assert_eq!(m.get("c"), None);
    assert_eq!(m.len(), 2);
    assert_eq!(m.entry(0).0, "a");
    m.remove("a");
    assert_eq!(m.get("a"), None);
    assert_eq!(m.len(), 1);
}

#[test]
fn json_member_lookup_takes_the_last_member() {
    let j = Json::Object(vec![
        ("n".to_string(), Json::Number(Some(1))),
        ("n".to_string(), Json::Number(Some(2))),
        ("s".to_string(), Json::Str("x".to_string())),
        ("a".to_string(), Json::Array(vec![Json::Null, Json::Bool(true)])),
    ]);
    assert_eq!(int_at(j.get("n")), Some(2));
    assert_eq!(text_at(j.get("s")), "x");
    assert_eq!(text_at(j.get("n")), "");
    assert_eq!(items_at(j.get("a")).len(), 2);
    assert_eq!(items_at(j.get("missing")).len(), 0);
    assert!(Json::Null.get("n").is_none());
}

#[test]
fn the_same_sites_give_the_same_edges_in_any_order() {
    let a = extract_call_edges("src/a.ts", "function f() {}\nfunction g() {}\nf();\ng();\nf();\n");
    let b = extract_call_edges("src/a.ts", "function f() {}\nfunction g() {}\ng();\nf();\nf();\n");
    assert_eq!(a, b);
    assert_eq!(a.len(), 2);
    assert_eq!(a[0].callee, RawCalleeRef::SameFile("f".into()));
    assert_eq!(a[0].count, 2);
    let total: u32 = a.iter().map(|e| e.count).sum();
    assert_eq!(total, 3);
}

#[test]
fn block_declaration_shadows_only_inside_its_block() {
    let src = "import { save } from './db';\nfunction f() { { let save = 1; } save(); }\n";
    let e = extract_call_edges("src/a.ts", src);
    assert_eq!(e.len(), 1);
    assert_eq!(
        e[0].callee,
        RawCalleeRef::Specifier { specifier: "./db".into(), name: "save".into() }
    );
}

#[test]
fn class_records_carry_one_based_lines() {
    let r = extract_class_records("src/a.ts", "\n\nclass A {}\nclass B extends A {}\n");
    assert_eq!(r.len(), 1);
    assert_eq!(r[0].line, 4);
}

#[test]
fn import_paths_are_unquoted() {
    let imports = extract_file_imports("src/a.ts", "import x from './y';\nconst z = require(\"zz\");\n");
    assert_eq!(imports, vec!["./y".to_string(), "zz".to_string()]);
    let rust = extract_file_imports("src/lib.rs", "use crate::a::b;\n");
    assert_eq!(rust, vec!["crate::a::b".to_string()]);
    assert!(extract_file_imports("notes.txt", "import x from './y';\n").is_empty());
}

#[test]
fn loc_leaves_out_blank_and_comment_lines_from_the_parse() {
    let m = analyse_file("src/a.rs", "// c\n\n/* a\n b */\nfn f() {}\n");
    assert_eq!(m.total_lines, 5);
    assert_eq!(m.loc, 1);
}

#[test]
fn complexity_counts_statements_and_short_circuit_operators() {
    let m = analyse_file("src/a.rs", "fn f(a: bool, b: bool) { if a && b { } while a || b { } }\n");
    assert_eq!(m.cyclomatic_complexity, 4);
}

#[test]
fn public_items_follow_each_language() {
    assert_eq!(analyse_file("a.go", "package p\nfunc Run() {}\nfunc run() {}\n").public_methods, 1);
    assert_eq!(
        analyse_file("a.py", "def run():\n    pass\ndef _hidden():\n    pass\n").public_methods,
        1
    );
    assert_eq!(analyse_file("a.rs", "pub struct S { pub a: u8, b: u8 }\n").properties, 1);
}

#[test]
fn queries_are_chosen_by_language() {
    assert_eq!(import_query(Language::Rust, "rs"), Some(RUST_IMPORTS));
    assert_eq!(import_query(Language::Kotlin, "kt"), None);
    assert_eq!(comment_query(Language::JsTs, "ts"), JS_COMMENTS);
    assert_eq!(complexity_queries(Language::Generic, ""), (RUST_COMPLEXITY, None));
}

#[test]
fn every_call_site_lands_in_exactly_one_edge() {
    let e = extract_call_edges(
        "src/b.js",
        "function f() {}\nfunction g() {}\nf();\nf();\nf();\ng();\nfunction h() { f(); g(); }\n",
    );
    assert!(e.iter().all(|x| x.count >= 1));
    let total: u32 = e.iter().map(|x| x.count).sum();
    assert_eq!(total, 6);
    for w in e.windows(2) {
        assert!((&w[0].caller, &w[0].callee) < (&w[1].caller, &w[1].callee));
    }
}

#[test]
fn the_copy_of_a_parse_is_one_tree() {
    use_parse_twice("function f() { if (a && b) { return [1, 2]; } }\n");
}

fn use_parse_twice(src: &str) {
    let a = barad_dur::metrics::complexity::ts::parse_source(
        src,
        barad_dur::metrics::complexity::ts::Grammar::JavaScript,
    )
    .expect("a parse");
    let b = barad_dur::metrics::complexity::ts::parse_source(
        src,
        barad_dur::metrics::complexity::ts::Grammar::JavaScript,
    )
    .expect("a parse");
    assert_eq!(a.nodes.len(), b.nodes.len());
    assert_eq!(a.nodes[0].kind, "program");
    assert_eq!(a.nodes[0].subtree_end, a.nodes.len());
    for (x, y) in a.nodes.iter().zip(b.nodes.iter()) {
        assert_eq!(x.kind, y.kind);
        assert_eq!((x.start, x.end, x.row, x.parent), (y.start, y.end, y.row, y.parent));
        assert_eq!(x.children, y.children);
        assert_eq!(x.fields, y.fields);
        assert_eq!(x.subtree_end, y.subtree_end);
    }
}
