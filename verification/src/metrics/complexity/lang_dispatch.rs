//! Which query each language runs.
use vstd::prelude::*;

use crate::metrics::complexity::fallback::Language;
use crate::metrics::complexity::queries::{
    CSHARP_COMMENTS, CSHARP_COMPLEXITY, CSHARP_COMPLEXITY_OPERATORS, CSHARP_FUNCTIONS, CSHARP_IMPORTS, CSHARP_NESTING, GO_COMMENTS, GO_COMPLEXITY, GO_COMPLEXITY_OPERATORS, GO_FUNCTIONS, GO_IMPORTS, GO_NESTING, JAVA_COMMENTS, JAVA_COMPLEXITY, JAVA_COMPLEXITY_OPERATORS, JAVA_FUNCTIONS, JAVA_IMPORTS, JAVA_NESTING, JS_COMMENTS, JS_COMPLEXITY, JS_COMPLEXITY_OPERATORS, JS_FUNCTIONS, JS_IMPORTS, JS_NESTING, PYTHON_COMMENTS, PYTHON_COMPLEXITY, PYTHON_FUNCTIONS, PYTHON_IMPORTS, PYTHON_NESTING, RUST_COMMENTS, RUST_COMPLEXITY, RUST_COMPLEXITY_OPERATORS, RUST_FUNCTIONS, RUST_IMPORTS, RUST_NESTING,
};

verus! {

/// The import query of a language.
pub open spec fn import_query_of(lang: Language) -> Option<&'static str> {
    match lang {
        Language::Rust => Some(RUST_IMPORTS),
        Language::JsTs => Some(JS_IMPORTS),
        Language::Python => Some(PYTHON_IMPORTS),
        Language::Go => Some(GO_IMPORTS),
        Language::Java => Some(JAVA_IMPORTS),
        Language::CSharp => Some(CSHARP_IMPORTS),
        _ => None::<&'static str>,
    }
}

/// The import query of a language, if it has one.
pub fn import_query(lang: Language, _ext: &str) -> (r: Option<&'static str>)
    ensures
        r == import_query_of(lang),
{
    match lang {
        Language::Rust => Some(RUST_IMPORTS),
        Language::JsTs => Some(JS_IMPORTS),
        Language::Python => Some(PYTHON_IMPORTS),
        Language::Go => Some(GO_IMPORTS),
        Language::Java => Some(JAVA_IMPORTS),
        Language::CSharp => Some(CSHARP_IMPORTS),
        _ => None,
    }
}

/// The complexity queries of a language.
pub open spec fn complexity_queries_of(lang: Language) -> (&'static str, Option<&'static str>) {
    match lang {
        Language::Rust => (RUST_COMPLEXITY, Some(RUST_COMPLEXITY_OPERATORS)),
        Language::JsTs => (JS_COMPLEXITY, Some(JS_COMPLEXITY_OPERATORS)),
        Language::Python => (PYTHON_COMPLEXITY, None::<&'static str>),
        Language::Go => (GO_COMPLEXITY, Some(GO_COMPLEXITY_OPERATORS)),
        Language::Java => (JAVA_COMPLEXITY, Some(JAVA_COMPLEXITY_OPERATORS)),
        Language::CSharp => (CSHARP_COMPLEXITY, Some(CSHARP_COMPLEXITY_OPERATORS)),
        _ => (RUST_COMPLEXITY, None::<&'static str>),
    }
}

/// The cyclomatic-complexity queries of a language: decision statements,
/// and short-circuit operators where the language has a query for them.
/// Languages without a grammar get the Rust statement query, which is never
/// run for them.
pub fn complexity_queries(lang: Language, _ext: &str) -> (r: (&'static str, Option<&'static str>))
    ensures
        r == complexity_queries_of(lang),
{
    match lang {
        Language::Rust => (RUST_COMPLEXITY, Some(RUST_COMPLEXITY_OPERATORS)),
        Language::JsTs => (JS_COMPLEXITY, Some(JS_COMPLEXITY_OPERATORS)),
        Language::Python => (PYTHON_COMPLEXITY, None),
        Language::Go => (GO_COMPLEXITY, Some(GO_COMPLEXITY_OPERATORS)),
        Language::Java => (JAVA_COMPLEXITY, Some(JAVA_COMPLEXITY_OPERATORS)),
        Language::CSharp => (CSHARP_COMPLEXITY, Some(CSHARP_COMPLEXITY_OPERATORS)),
        _ => (RUST_COMPLEXITY, None),
    }
}

/// The function-node query of a language, if it has one.
pub fn function_query(lang: Language, _ext: &str) -> (r: Option<&'static str>)
    ensures
        r == match lang {
            Language::Rust => Some(RUST_FUNCTIONS),
            Language::JsTs => Some(JS_FUNCTIONS),
            Language::Python => Some(PYTHON_FUNCTIONS),
            Language::Go => Some(GO_FUNCTIONS),
            Language::Java => Some(JAVA_FUNCTIONS),
            Language::CSharp => Some(CSHARP_FUNCTIONS),
            _ => None::<&'static str>,
        },
{
    match lang {
        Language::Rust => Some(RUST_FUNCTIONS),
        Language::JsTs => Some(JS_FUNCTIONS),
        Language::Python => Some(PYTHON_FUNCTIONS),
        Language::Go => Some(GO_FUNCTIONS),
        Language::Java => Some(JAVA_FUNCTIONS),
        Language::CSharp => Some(CSHARP_FUNCTIONS),
        _ => None,
    }
}

/// The nesting query of a language, if it has one.
pub fn nesting_query(lang: Language, _ext: &str) -> (r: Option<&'static str>)
    ensures
        r == match lang {
            Language::Rust => Some(RUST_NESTING),
            Language::JsTs => Some(JS_NESTING),
            Language::Python => Some(PYTHON_NESTING),
            Language::Go => Some(GO_NESTING),
            Language::Java => Some(JAVA_NESTING),
            Language::CSharp => Some(CSHARP_NESTING),
            _ => None::<&'static str>,
        },
{
    match lang {
        Language::Rust => Some(RUST_NESTING),
        Language::JsTs => Some(JS_NESTING),
        Language::Python => Some(PYTHON_NESTING),
        Language::Go => Some(GO_NESTING),
        Language::Java => Some(JAVA_NESTING),
        Language::CSharp => Some(CSHARP_NESTING),
        _ => None,
    }
}

/// The comment query of a language.
pub open spec fn comment_query_of(lang: Language) -> &'static str {
    match lang {
        Language::JsTs => JS_COMMENTS,
        Language::Python => PYTHON_COMMENTS,
        Language::Go => GO_COMMENTS,
        Language::Java => JAVA_COMMENTS,
        Language::CSharp => CSHARP_COMMENTS,
        _ => RUST_COMMENTS,
    }
}

/// The comment query of a language (used for lines of code). Languages
/// without a grammar get the Rust query, which is never run for them.
pub fn comment_query(lang: Language, _ext: &str) -> (r: &'static str)
    ensures
        r == comment_query_of(lang),
{
    match lang {
        Language::JsTs => JS_COMMENTS,
        Language::Python => PYTHON_COMMENTS,
        Language::Go => GO_COMMENTS,
        Language::Java => JAVA_COMMENTS,
        Language::CSharp => CSHARP_COMMENTS,
        _ => RUST_COMMENTS,
    }
}

} // verus!
