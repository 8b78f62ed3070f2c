use barad_dur::metrics::complexity::queries::{
    CSHARP_COMMENTS, CSHARP_COMPLEXITY, CSHARP_COMPLEXITY_OPERATORS, CSHARP_FUNCTIONS, CSHARP_IMPORTS, CSHARP_NESTING, CSHARP_PROPERTIES, CSHARP_PUBLIC_METHODS, GO_COMMENTS, GO_COMPLEXITY, GO_COMPLEXITY_OPERATORS, GO_FUNCTIONS, GO_IMPORTS, GO_NESTING, GO_PROPERTIES, GO_PUBLIC_METHODS, JAVA_COMMENTS, JAVA_COMPLEXITY, JAVA_COMPLEXITY_OPERATORS, JAVA_FUNCTIONS, JAVA_IMPORTS, JAVA_NESTING, JAVA_PROPERTIES, JAVA_PUBLIC_METHODS, JS_COMMENTS, JS_COMPLEXITY, JS_COMPLEXITY_OPERATORS, JS_FUNCTIONS, JS_IMPORTS, JS_NESTING, JS_PROPERTIES, JS_PUBLIC_METHODS, PYTHON_COMMENTS, PYTHON_COMPLEXITY, PYTHON_FUNCTIONS, PYTHON_IMPORTS, PYTHON_NESTING, PYTHON_PUBLIC_METHODS, RUST_COMMENTS, RUST_COMPLEXITY, RUST_COMPLEXITY_OPERATORS, RUST_FUNCTIONS, RUST_IMPORTS, RUST_NESTING, RUST_PROPERTIES, RUST_PUBLIC_METHODS, TS_PROPERTIES, TS_PUBLIC_METHODS,
};

fn assert_valid_query(grammar: tree_sitter::Language, query_src: &str, label: &str) {
    tree_sitter::Query::new(&grammar, query_src)
        .unwrap_or_else(|e| panic!("{label} query failed: {e}"));
}

fn rust() -> tree_sitter::Language {
    tree_sitter_rust::LANGUAGE.into()
}
fn js() -> tree_sitter::Language {
    tree_sitter_javascript::LANGUAGE.into()
}
fn ts() -> tree_sitter::Language {
    tree_sitter_typescript::LANGUAGE_TYPESCRIPT.into()
}
fn python() -> tree_sitter::Language {
    tree_sitter_python::LANGUAGE.into()
}
fn go() -> tree_sitter::Language {
    tree_sitter_go::LANGUAGE.into()
}
fn java() -> tree_sitter::Language {
    tree_sitter_java::LANGUAGE.into()
}
fn csharp() -> tree_sitter::Language {
    tree_sitter_c_sharp::LANGUAGE.into()
}

#[test]
fn rust_queries_are_valid() {
    assert_valid_query(rust(), RUST_COMPLEXITY, "rust complexity");
    assert_valid_query(rust(), RUST_COMPLEXITY_OPERATORS, "rust operators");
    assert_valid_query(rust(), RUST_PUBLIC_METHODS, "rust public_methods");
    assert_valid_query(rust(), RUST_PROPERTIES, "rust properties");
    assert_valid_query(rust(), RUST_COMMENTS, "rust comments");
    assert_valid_query(rust(), RUST_FUNCTIONS, "rust functions");
    assert_valid_query(rust(), RUST_NESTING, "rust nesting");
}

#[test]
fn js_queries_are_valid() {
    assert_valid_query(js(), JS_COMPLEXITY, "js complexity");
    assert_valid_query(js(), JS_COMPLEXITY_OPERATORS, "js operators");
    assert_valid_query(js(), JS_PUBLIC_METHODS, "js public_methods");
    assert_valid_query(js(), JS_PROPERTIES, "js properties");
    assert_valid_query(js(), JS_COMMENTS, "js comments");
    assert_valid_query(js(), JS_FUNCTIONS, "js functions");
    assert_valid_query(js(), JS_NESTING, "js nesting");
}

#[test]
fn ts_queries_are_valid() {
    // TS shares JS complexity + operators + comments queries
    assert_valid_query(ts(), JS_COMPLEXITY, "ts complexity");
    assert_valid_query(ts(), JS_COMPLEXITY_OPERATORS, "ts operators");
    assert_valid_query(ts(), TS_PUBLIC_METHODS, "ts public_methods");
    assert_valid_query(ts(), TS_PROPERTIES, "ts properties");
    assert_valid_query(ts(), JS_COMMENTS, "ts comments");
}

#[test]
fn python_queries_are_valid() {
    assert_valid_query(python(), PYTHON_COMPLEXITY, "python complexity");
    assert_valid_query(python(), PYTHON_PUBLIC_METHODS, "python public_methods");
    assert_valid_query(python(), PYTHON_FUNCTIONS, "python functions");
    assert_valid_query(python(), PYTHON_NESTING, "python nesting");
    assert_valid_query(python(), PYTHON_COMMENTS, "python comments");
}

#[test]
fn go_queries_are_valid() {
    assert_valid_query(go(), GO_COMPLEXITY, "go complexity");
    assert_valid_query(go(), GO_COMPLEXITY_OPERATORS, "go operators");
    assert_valid_query(go(), GO_PUBLIC_METHODS, "go public_methods");
    assert_valid_query(go(), GO_PROPERTIES, "go properties");
    assert_valid_query(go(), GO_COMMENTS, "go comments");
    assert_valid_query(go(), GO_FUNCTIONS, "go functions");
    assert_valid_query(go(), GO_NESTING, "go nesting");
}

#[test]
fn java_queries_are_valid() {
    assert_valid_query(java(), JAVA_COMPLEXITY, "java complexity");
    assert_valid_query(java(), JAVA_COMPLEXITY_OPERATORS, "java operators");
    assert_valid_query(java(), JAVA_PUBLIC_METHODS, "java public_methods");
    assert_valid_query(java(), JAVA_PROPERTIES, "java properties");
    assert_valid_query(java(), JAVA_COMMENTS, "java comments");
    assert_valid_query(java(), JAVA_FUNCTIONS, "java functions");
    assert_valid_query(java(), JAVA_NESTING, "java nesting");
}

#[test]
fn csharp_queries_are_valid() {
    assert_valid_query(csharp(), CSHARP_COMPLEXITY, "csharp complexity");
    assert_valid_query(csharp(), CSHARP_COMPLEXITY_OPERATORS, "csharp operators");
    assert_valid_query(csharp(), CSHARP_PUBLIC_METHODS, "csharp public_methods");
    assert_valid_query(csharp(), CSHARP_PROPERTIES, "csharp properties");
    assert_valid_query(csharp(), CSHARP_COMMENTS, "csharp comments");
    assert_valid_query(csharp(), CSHARP_FUNCTIONS, "csharp functions");
    assert_valid_query(csharp(), CSHARP_NESTING, "csharp nesting");
}

#[test]
fn rust_import_query_is_valid() {
    assert_valid_query(rust(), RUST_IMPORTS, "rust imports");
}

#[test]
fn js_import_query_is_valid() {
    assert_valid_query(js(), JS_IMPORTS, "js imports");
}

#[test]
fn ts_import_query_is_valid() {
    assert_valid_query(ts(), JS_IMPORTS, "ts imports");
}

#[test]
fn python_import_query_is_valid() {
    assert_valid_query(python(), PYTHON_IMPORTS, "python imports");
}

#[test]
fn go_import_query_is_valid() {
    assert_valid_query(go(), GO_IMPORTS, "go imports");
}

#[test]
fn java_import_query_is_valid() {
    assert_valid_query(java(), JAVA_IMPORTS, "java imports");
}

#[test]
fn csharp_import_query_is_valid() {
    assert_valid_query(csharp(), CSHARP_IMPORTS, "csharp imports");
}
