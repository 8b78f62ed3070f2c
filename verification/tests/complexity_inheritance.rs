use barad_dur::metrics::complexity::inheritance::{
    extract_class_records, extract_reexports, RawBaseRef, RawClassRecord, RawReExport,
    RawReExportKind,
};

fn records(name: &str, src: &str) -> Vec<RawClassRecord> {
    extract_class_records(name, src)
}

#[test]
fn same_file_extends() {
    let r = records("src/a.ts", "class A {}\nclass B extends A {}\n");
    assert_eq!(r.len(), 1);
    assert_eq!(r[0].class_name, "B");
    assert_eq!(r[0].line, 2);
    assert_eq!(r[0].base, RawBaseRef::SameFile("A".into()));
}

#[test]
fn imported_named_base() {
    let src = "import { A } from './a';\nexport class B extends A {}\n";
    let r = records("src/b.ts", src);
    assert_eq!(
        r[0].base,
        RawBaseRef::Specifier {
            specifier: "./a".into(),
            name: "A".into()
        }
    );
}

#[test]
fn aliased_import_records_exported_name() {
    let src = "import { A as Base } from './a';\nclass B extends Base {}\n";
    let r = records("src/b.ts", src);
    assert_eq!(
        r[0].base,
        RawBaseRef::Specifier {
            specifier: "./a".into(),
            name: "A".into()
        }
    );
}

#[test]
fn default_import_base_maps_to_local_name() {
    let src = "import A from './a';\nclass B extends A {}\n";
    let r = records("src/b.js", src);
    assert_eq!(
        r[0].base,
        RawBaseRef::Specifier {
            specifier: "./a".into(),
            name: "A".into()
        }
    );
}

// ── Re-export extraction ───────────────────────────────────────

fn reexports(name: &str, src: &str) -> Vec<RawReExport> {
    extract_reexports(name, src)
}

#[test]
fn named_reexport_from_source() {
    let r = reexports("src/index.ts", "export { A } from './a';\n");
    assert_eq!(
        r,
        vec![RawReExport {
            specifier: "./a".into(),
            kind: RawReExportKind::Named {
                exported: "A".into(),
                source: "A".into()
            },
        }]
    );
}

#[test]
fn aliased_reexport_records_both_names() {
    let r = reexports("src/index.ts", "export { A as Base } from './a';\n");
    assert_eq!(
        r[0].kind,
        RawReExportKind::Named {
            exported: "Base".into(),
            source: "A".into()
        }
    );
}

#[test]
fn star_reexport() {
    let r = reexports("src/index.ts", "export * from './a';\n");
    assert_eq!(
        r,
        vec![RawReExport {
            specifier: "./a".into(),
            kind: RawReExportKind::Star,
        }]
    );
}

#[test]
fn bare_export_of_import_binding_is_a_reexport() {
    let src = "import { A } from './a';\nexport { A };\n";
    let r = reexports("src/index.ts", src);
    assert_eq!(
        r,
        vec![RawReExport {
            specifier: "./a".into(),
            kind: RawReExportKind::Named {
                exported: "A".into(),
                source: "A".into()
            },
        }]
    );
}

#[test]
fn namespace_reexport_is_skipped() {
    assert!(reexports("src/index.ts", "export * as ns from './a';\n").is_empty());
}

#[test]
fn plain_exports_are_not_reexports() {
    let src = "export class A {}\nexport const x = 1;\nexport function f() {}\n";
    assert!(reexports("src/index.ts", src).is_empty());
}

#[test]
fn non_jsts_yields_no_reexports() {
    assert!(reexports("src/lib.rs", "pub use crate::a::A;\n").is_empty());
}

#[test]
fn mixin_call_is_unresolvable() {
    let r = records("src/b.ts", "class B extends mixin(Base) {}\n");
    assert_eq!(r.len(), 1);
    assert_eq!(r[0].base, RawBaseRef::Unresolvable);
}

#[test]
fn class_without_extends_yields_no_record() {
    assert!(records("src/a.ts", "class A { m() {} }\n").is_empty());
}

#[test]
fn implements_only_yields_no_record() {
    let src = "interface I {}\nclass A implements I {}\n";
    assert!(records("src/a.ts", src).is_empty());
}

#[test]
fn export_default_anonymous_class_is_captured() {
    let src = "class A {}\nexport default class extends A {}\n";
    let r = records("src/b.ts", src);
    assert_eq!(r.len(), 1);
    assert_eq!(r[0].class_name, "default");
    assert_eq!(r[0].base, RawBaseRef::SameFile("A".into()));
}

#[test]
fn rust_files_yield_no_records() {
    let src = "pub trait T {}\npub struct S;\nimpl T for S {}\n";
    assert!(records("src/lib.rs", src).is_empty());
}

#[test]
fn js_grammar_heritage_shape_works_too() {
    // The JS grammar has no extends_clause wrapper — the heritage
    // node's child is the expression itself.
    let r = records("src/b.js", "class A {}\nclass B extends A {}\n");
    assert_eq!(r[0].base, RawBaseRef::SameFile("A".into()));
}

#[test]
fn ts_type_arguments_on_base_still_resolve_the_identifier() {
    let src = "class A<T> {}\nclass B extends A<number> {}\n";
    let r = records("src/b.ts", src);
    assert_eq!(r[0].base, RawBaseRef::SameFile("A".into()));
}

#[test]
fn abstract_class_with_extends_is_captured() {
    let r = records("src/b.ts", "abstract class B extends A {}\n");
    assert_eq!(r.len(), 1);
    assert_eq!(r[0].class_name, "B");
    assert_eq!(r[0].base, RawBaseRef::SameFile("A".into()));
}
