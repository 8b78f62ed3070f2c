use barad_dur::metrics::complexity::fallback::Language;
use barad_dur::metrics::complexity::treesitter::{analyse, extract_imports};


// ── Rust ────────────────────────────────────────────────────────

#[test]
fn rust_public_methods() {
    let content = "pub fn foo() {}\nfn bar() {}\npub fn baz() {}\n";
    let result = analyse(content, Language::Rust, "rs").unwrap();
    assert_eq!(result.public_methods, 2);
}

#[test]
fn rust_cyclomatic_complexity() {
    let content =
        "fn f() {\n  if x {}\n  for i in v {}\n  while z {}\n  match a { _ => {} }\n}\n";
    let result = analyse(content, Language::Rust, "rs").unwrap();
    assert!(
        result.cyclomatic_complexity >= 4,
        "expected >= 4, got {}",
        result.cyclomatic_complexity
    );
}

#[test]
fn rust_complexity_with_logical_operators() {
    let content = "fn f() { if a && b || c {} }\n";
    let result = analyse(content, Language::Rust, "rs").unwrap();
    assert!(
        result.cyclomatic_complexity >= 3,
        "expected >= 3, got {}",
        result.cyclomatic_complexity
    );
}

#[test]
fn rust_properties() {
    let content = "pub struct Foo {\n    pub x: i32,\n    pub y: String,\n    z: bool,\n}\n";
    let result = analyse(content, Language::Rust, "rs").unwrap();
    assert_eq!(result.properties, 2);
}

#[test]
fn rust_loc_excludes_comments() {
    let content = "// comment\n\nfn main() {}\n    // indented\nlet x = 1;\n";
    let result = analyse(content, Language::Rust, "rs").unwrap();
    assert_eq!(result.loc, 2);
}

#[test]
fn rust_loc_excludes_block_comments() {
    let content = "/* multi\n   line\n   comment */\nfn main() {}\n";
    let result = analyse(content, Language::Rust, "rs").unwrap();
    assert_eq!(result.loc, 1);
}

// ── JavaScript ──────────────────────────────────────────────────

#[test]
fn js_public_methods() {
    let content = "export function foo() {}\nfunction bar() {}\nexport const baz = () => {}\n";
    let result = analyse(content, Language::JsTs, "js").unwrap();
    assert_eq!(result.public_methods, 2);
}

#[test]
fn js_complexity() {
    let content = "if (x) {} for (;;) {} while (y) {} switch (z) {}\n";
    let result = analyse(content, Language::JsTs, "js").unwrap();
    assert!(
        result.cyclomatic_complexity >= 4,
        "expected >= 4, got {}",
        result.cyclomatic_complexity
    );
}

// ── TypeScript ──────────────────────────────────────────────────

#[test]
fn ts_parses_type_annotations() {
    let content = "export function greet(name: string): void {}\n";
    let result = analyse(content, Language::JsTs, "ts").unwrap();
    assert_eq!(result.public_methods, 1);
}

#[test]
fn ts_interface_properties() {
    // property_signature nodes only exist in the TS grammar, not JS
    let content = "interface Foo {\n  name: string;\n  age: number;\n}\n";
    let result = analyse(content, Language::JsTs, "ts").unwrap();
    assert_eq!(result.properties, 2);
}

#[test]
fn tsx_parses_jsx_with_types() {
    let content = "export function App(props: { name: string }) { return <div/>; }\n";
    let result = analyse(content, Language::JsTs, "tsx").unwrap();
    assert_eq!(result.public_methods, 1);
}

#[test]
fn ts_loc_excludes_comments() {
    let content = "// comment\nconst x: number = 1;\n";
    let result = analyse(content, Language::JsTs, "ts").unwrap();
    assert_eq!(result.loc, 1);
}

#[test]
fn ts_complexity() {
    let content = "function f(x: number): void { if (x > 0) {} while (x) {} }\n";
    let result = analyse(content, Language::JsTs, "ts").unwrap();
    assert!(result.cyclomatic_complexity >= 2);
}

// ── Python ──────────────────────────────────────────────────────

#[test]
fn python_public_methods() {
    let content = "def foo():\n    pass\ndef _bar():\n    pass\ndef baz():\n    pass\n";
    let result = analyse(content, Language::Python, "py").unwrap();
    assert_eq!(result.public_methods, 2);
}

#[test]
fn python_complexity() {
    let content =
        "if x:\n    pass\nelif y:\n    pass\nfor i in v:\n    pass\nwhile z:\n    pass\n";
    let result = analyse(content, Language::Python, "py").unwrap();
    assert!(
        result.cyclomatic_complexity >= 4,
        "expected >= 4, got {}",
        result.cyclomatic_complexity
    );
}

// ── Go ──────────────────────────────────────────────────────────

#[test]
fn go_public_methods() {
    let content = "package main\nfunc Foo() {}\nfunc bar() {}\n";
    let result = analyse(content, Language::Go, "go").unwrap();
    assert_eq!(result.public_methods, 1);
}

#[test]
fn go_properties() {
    let content = "package main\ntype Foo struct {\n\tName string\n\tage int\n}\n";
    let result = analyse(content, Language::Go, "go").unwrap();
    assert_eq!(result.properties, 1);
}

// ── Java ────────────────────────────────────────────────────────

#[test]
fn java_public_methods() {
    let content = "class Foo {\n  public void bar() {}\n  private void baz() {}\n  public void qux() {}\n}\n";
    let result = analyse(content, Language::Java, "java").unwrap();
    assert_eq!(result.public_methods, 2);
}

#[test]
fn java_complexity() {
    let content = "class Foo {\n  void f() {\n    if (x) {}\n    for (int i=0;;) {}\n    while (y) {}\n  }\n}\n";
    let result = analyse(content, Language::Java, "java").unwrap();
    assert!(
        result.cyclomatic_complexity >= 3,
        "expected >= 3, got {}",
        result.cyclomatic_complexity
    );
}

// ── C# ──────────────────────────────────────────────────────────

#[test]
fn csharp_public_methods() {
    let content = "class Foo {\n  public void Bar() {}\n  private void Baz() {}\n  public void Qux() {}\n}\n";
    let result = analyse(content, Language::CSharp, "cs").unwrap();
    assert_eq!(result.public_methods, 2);
}

// ── Edge cases ──────────────────────────────────────────────────

#[test]
fn generic_returns_none() {
    assert!(analyse("hello world", Language::Generic, "txt").is_none());
}

#[test]
fn kotlin_returns_none() {
    assert!(analyse("fun main() {}", Language::Kotlin, "kt").is_none());
}

#[test]
fn syntax_error_returns_best_effort() {
    let content = "pub fn foo() { if x {} }\npub fn bar() {{{{{";
    let result = analyse(content, Language::Rust, "rs");
    assert!(result.is_some(), "should parse despite syntax errors");
    assert!(result.unwrap().public_methods >= 1);
}

#[test]
fn loc_counts_only_nonblank_nonccomment_lines() {
    // Tests the fallback branch inside count_loc (blank line filtering)
    let content = "\n\n// comment\nfn foo() {}\n\n";
    let result = analyse(content, Language::Rust, "rs").unwrap();
    assert_eq!(result.loc, 1);
    assert_eq!(result.total_lines, 5);
}

#[test]
fn empty_content() {
    let result = analyse("", Language::Rust, "rs").unwrap();
    assert_eq!(result.total_lines, 0);
    assert_eq!(result.loc, 0);
    assert_eq!(result.cyclomatic_complexity, 0);
    assert_eq!(result.public_methods, 0);
    assert_eq!(result.properties, 0);
}

// ── Import extraction ──────────────────────────────────────────

#[test]
fn rust_extract_imports() {
    let content =
        "use std::collections::HashMap;\nuse crate::snapshot::RepoSnapshot;\nfn main() {}\n";
    let imports = extract_imports(content, Language::Rust, "rs");
    assert_eq!(imports.len(), 2);
    assert!(imports
        .iter()
        .any(|i| i.contains("std::collections::HashMap")));
    assert!(imports
        .iter()
        .any(|i| i.contains("crate::snapshot::RepoSnapshot")));
}

#[test]
fn js_extract_imports() {
    let content = "import { foo } from './utils';\nconst bar = require('lodash');\n";
    let imports = extract_imports(content, Language::JsTs, "js");
    assert!(
        imports.iter().any(|i| i == "./utils"),
        "imports: {:?}",
        imports
    );
    assert!(
        imports.iter().any(|i| i == "lodash"),
        "imports: {:?}",
        imports
    );
}

#[test]
fn ts_extract_imports() {
    let content =
        "import { Component } from '@angular/core';\nimport type { Foo } from './foo';\n";
    let imports = extract_imports(content, Language::JsTs, "ts");
    assert!(
        imports.iter().any(|i| i == "@angular/core"),
        "imports: {:?}",
        imports
    );
    assert!(
        imports.iter().any(|i| i == "./foo"),
        "imports: {:?}",
        imports
    );
}

#[test]
fn python_extract_imports() {
    let content = "import os\nfrom collections import defaultdict\nimport sys\n";
    let imports = extract_imports(content, Language::Python, "py");
    assert!(imports.iter().any(|i| i == "os"), "imports: {:?}", imports);
    assert!(
        imports.iter().any(|i| i == "collections"),
        "imports: {:?}",
        imports
    );
    assert!(imports.iter().any(|i| i == "sys"), "imports: {:?}", imports);
}

#[test]
fn go_extract_imports() {
    let content = "package main\nimport (\n\t\"fmt\"\n\t\"os\"\n)\n";
    let imports = extract_imports(content, Language::Go, "go");
    assert!(imports.iter().any(|i| i == "fmt"), "imports: {:?}", imports);
    assert!(imports.iter().any(|i| i == "os"), "imports: {:?}", imports);
}

#[test]
fn java_extract_imports() {
    let content = "import java.util.HashMap;\nimport java.io.File;\nclass Foo {}\n";
    let imports = extract_imports(content, Language::Java, "java");
    assert!(
        imports.iter().any(|i| i.contains("java.util.HashMap")),
        "imports: {:?}",
        imports
    );
    assert!(
        imports.iter().any(|i| i.contains("java.io.File")),
        "imports: {:?}",
        imports
    );
}

#[test]
fn csharp_extract_imports() {
    let content = "using System;\nusing System.Collections.Generic;\nclass Foo {}\n";
    let imports = extract_imports(content, Language::CSharp, "cs");
    assert!(
        imports.iter().any(|i| i.contains("System")),
        "imports: {:?}",
        imports
    );
}

#[test]
fn generic_extract_imports_returns_empty() {
    let imports = extract_imports("hello world", Language::Generic, "txt");
    assert!(imports.is_empty());
}

#[test]
fn kotlin_extract_imports_returns_empty() {
    let imports = extract_imports("import foo.bar", Language::Kotlin, "kt");
    assert!(imports.is_empty());
}
