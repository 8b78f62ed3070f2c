//! Language detection and the line-based complexity metrics used when no
//! grammar parses a file.
use vstd::prelude::*;

use crate::metrics::complexity::FileComplexity;
use crate::text::{chars_eq_str, chars_of, contains_char, contains_seq, contains_str, count_matches, count_occurrences, is_prefix, is_uppercase, lines, slice_vec, split_lines, starts_with_str, trim, trimmed, unicode_uppercase};

verus! {

/// The languages the collector knows. New variants are appended.
#[derive(Debug, Clone, Copy, PartialEq, Eq, Structural)]
#[non_exhaustive]
pub enum Language {
    Rust,
    JsTs,
    Python,
    Go,
    Java,
    Kotlin,
    CSharp,
    Generic,
    Php,
}

// ── Paths ──────────────────────────────────────────────────────────────

/// End of the last path component: trailing `/` and `/.` are not part of it.
pub open spec fn component_end(p: Seq<char>, e: int) -> int
    decreases e,
{
    if e <= 0 {
        0
    } else if p[e - 1] == '/' {
        component_end(p, e - 1)
    } else if p[e - 1] == '.' && (e == 1 || p[e - 2] == '/') && e < p.len() {
        component_end(p, e - 1)
    } else {
        e
    }
}

/// Start of the component that ends at `e`.
pub open spec fn component_start(p: Seq<char>, e: int) -> int
    decreases e,
{
    if e <= 0 {
        0
    } else if p[e - 1] == '/' {
        e
    } else {
        component_start(p, e - 1)
    }
}

/// `Path::file_name`: the last normal component, if any.
pub open spec fn file_name(p: Seq<char>) -> Option<Seq<char>> {
    let e = component_end(p, p.len() as int);
    let s = component_start(p, e);
    let name = p.subrange(s, e);
    if e == 0 || name == ".."@ || name == "."@ {
        None
    } else {
        Some(name)
    }
}

/// Position of the last `.` of `s` before `e`, if any.
pub open spec fn last_dot(s: Seq<char>, e: int) -> Option<int>
    decreases e,
{
    if e <= 0 {
        None
    } else if s[e - 1] == '.' {
        Some(e - 1)
    } else {
        last_dot(s, e - 1)
    }
}

/// `Path::extension`: what follows the last `.` of the file name, unless
/// that `.` opens the name.
pub open spec fn extension(p: Seq<char>) -> Seq<char> {
    match file_name(p) {
        None => seq![],
        Some(name) => match last_dot(name, name.len() as int) {
            Some(i) => if i == 0 {
                seq![]
            } else {
                name.skip(i + 1)
            },
            None => seq![],
        },
    }
}

/// The language a path's extension names.
pub open spec fn path_language(path: Seq<char>) -> Language {
    language_of_extension(extension(path))
}

pub open spec fn language_of_extension(ext: Seq<char>) -> Language {
    if ext == "rs"@ {
        Language::Rust
    } else if ext == "js"@ || ext == "ts"@ || ext == "jsx"@ || ext == "tsx"@ || ext == "mjs"@ || ext
        == "cjs"@ {
        Language::JsTs
    } else if ext == "py"@ {
        Language::Python
    } else if ext == "go"@ {
        Language::Go
    } else if ext == "java"@ {
        Language::Java
    } else if ext == "kt"@ || ext == "kts"@ {
        Language::Kotlin
    } else if ext == "cs"@ {
        Language::CSharp
    } else if ext == "php"@ {
        Language::Php
    } else {
        Language::Generic
    }
}

proof fn lemma_component_end(p: Seq<char>, e: int)
    requires
        0 <= e <= p.len(),
    ensures
        0 <= component_end(p, e) <= e,
    decreases e,
{
    if e > 0 {
        lemma_component_end(p, e - 1);
    }
}

proof fn lemma_component_start(p: Seq<char>, e: int)
    requires
        0 <= e <= p.len(),
    ensures
        0 <= component_start(p, e) <= e,
        forall|k: int| component_start(p, e) <= k < e ==> p[k] != '/',
    decreases e,
{
    if e > 0 && p[e - 1] != '/' {
        lemma_component_start(p, e - 1);
    }
}

proof fn lemma_last_dot(s: Seq<char>, e: int)
    requires
        0 <= e <= s.len(),
    ensures
        last_dot(s, e) matches Some(i) ==> 0 <= i < e && s[i] == '.',
    decreases e,
{
    if e > 0 && s[e - 1] != '.' {
        lemma_last_dot(s, e - 1);
    }
}

/// The extension of a path (`Path::extension`, empty when there is none).
pub fn path_extension(path: &str) -> (ext: Vec<char>)
    ensures
        ext@ == extension(path@),
{
    let p = chars_of(path);
    let ghost pv = p@;
    let mut e = p.len();
    while e > 0 && (p[e - 1] == '/' || (p[e - 1] == '.' && (e == 1 || p[e - 2] == '/') && e < p.len()))
        invariant
            e <= p@.len(),
            pv == p@,
            component_end(pv, pv.len() as int) == component_end(pv, e as int),
        decreases e,
    {
        e = e - 1;
    }
    let mut s = e;
    while s > 0 && p[s - 1] != '/'
        invariant
            s <= e <= p@.len(),
            pv == p@,
            component_start(pv, e as int) == component_start(pv, s as int),
        decreases s,
    {
        s = s - 1;
    }
    proof {
        lemma_component_end(pv, pv.len() as int);
        lemma_component_start(pv, e as int);
    }
    let name = slice_vec(p.as_slice(), s, e);
    if e == 0 || chars_eq_str(name.as_slice(), "..") || chars_eq_str(name.as_slice(), ".") {
        return Vec::new();
    }
    let mut d = name.len();
    while d > 0 && name[d - 1] != '.'
        invariant
            d <= name@.len(),
            last_dot(name@, name@.len() as int) == last_dot(name@, d as int),
        decreases d,
    {
        d = d - 1;
    }
    if d == 0 {
        return Vec::new();
    }
    proof {
        lemma_last_dot(name@, name@.len() as int);
    }
    let dot = d - 1;
    if dot == 0 {
        return Vec::new();
    }
    slice_vec(name.as_slice(), dot + 1, name.len())
}

/// Map a path to its language by extension.
pub fn detect_language(path: &str) -> (lang: Language)
    ensures
        lang == language_of_extension(extension(path@)),
{
    let ext = path_extension(path);
    let e = ext.as_slice();
    if chars_eq_str(e, "rs") {
        Language::Rust
    } else if chars_eq_str(e, "js") || chars_eq_str(e, "ts") || chars_eq_str(e, "jsx")
        || chars_eq_str(e, "tsx") || chars_eq_str(e, "mjs") || chars_eq_str(e, "cjs") {
        Language::JsTs
    } else if chars_eq_str(e, "py") {
        Language::Python
    } else if chars_eq_str(e, "go") {
        Language::Go
    } else if chars_eq_str(e, "java") {
        Language::Java
    } else if chars_eq_str(e, "kt") || chars_eq_str(e, "kts") {
        Language::Kotlin
    } else if chars_eq_str(e, "cs") {
        Language::CSharp
    } else if chars_eq_str(e, "php") {
        Language::Php
    } else {
        Language::Generic
    }
}

// ── Line predicates ────────────────────────────────────────────────────

/// A trimmed line that is a comment in `lang`.
pub open spec fn comment_line(t: Seq<char>, lang: Language) -> bool {
    match lang {
        Language::Rust | Language::JsTs | Language::Go | Language::Java | Language::Kotlin
        | Language::CSharp => is_prefix(t, "//"@) || is_prefix(t, "/*"@) || is_prefix(t, "*"@),
        Language::Php => is_prefix(t, "//"@) || is_prefix(t, "/*"@) || is_prefix(t, "*"@) || (
        is_prefix(t, "#"@) && !is_prefix(t, "#["@)),
        Language::Python => is_prefix(t, "#"@),
        Language::Generic => is_prefix(t, "//"@) || is_prefix(t, "#"@),
    }
}

/// Whether a trimmed line is a comment. PHP takes the C-family forms plus
/// `#`, but not `#[`, which opens an attribute.
pub fn is_comment_line(trimmed: &str, lang: Language) -> (r: bool)
    ensures
        r == comment_line(trimmed@, lang),
{
    let t = chars_of(trimmed);
    comment_line_chars(t.as_slice(), lang)
}

fn comment_line_chars(t: &[char], lang: Language) -> (r: bool)
    ensures
        r == comment_line(t@, lang),
{
    match lang {
        Language::Rust | Language::JsTs | Language::Go | Language::Java | Language::Kotlin
        | Language::CSharp => starts_with_str(t, "//") || starts_with_str(t, "/*")
            || starts_with_str(t, "*"),
        Language::Php => starts_with_str(t, "//") || starts_with_str(t, "/*") || starts_with_str(
            t,
            "*",
        ) || (starts_with_str(t, "#") && !starts_with_str(t, "#[")),
        Language::Python => starts_with_str(t, "#"),
        Language::Generic => starts_with_str(t, "//") || starts_with_str(t, "#"),
    }
}

/// A line that counts as code: not blank once trimmed, and not a comment.
pub open spec fn code_line(line: Seq<char>, lang: Language) -> bool {
    trim(line).len() > 0 && !comment_line(trim(line), lang)
}

pub open spec fn rust_pub_method(t: Seq<char>) -> bool {
    is_prefix(t, "pub fn "@) || is_prefix(t, "pub async fn "@)
}

pub open spec fn jsts_pub_method(t: Seq<char>) -> bool {
    !is_prefix(t, "//"@) && (is_prefix(t, "export function "@) || is_prefix(
        t,
        "export async function "@,
    ) || is_prefix(t, "export const "@) || (contains_seq(t, "public "@) && t.contains('(')))
}

pub open spec fn python_pub_method(t: Seq<char>) -> bool {
    is_prefix(t, "def "@) && !is_prefix(t, "def _"@)
}

/// Position of the first `c` in `s` at or after `i`, or `s.len()`.
pub open spec fn first_of(s: Seq<char>, c: char, i: int) -> int
    decreases s.len() - i,
{
    if i < 0 || i >= s.len() {
        s.len() as int
    } else if s[i] == c {
        i
    } else {
        first_of(s, c, i + 1)
    }
}

/// The name part of a Go `func` line: after the receiver, if any.
pub open spec fn go_name_part(rest: Seq<char>) -> Seq<char> {
    if rest.len() > 0 && rest[0] == '(' {
        let i = first_of(rest, ')', 0);
        if i < rest.len() {
            trim(rest.skip(i + 1))
        } else {
            seq![]
        }
    } else {
        rest
    }
}

pub open spec fn go_pub_method(t: Seq<char>) -> bool {
    is_prefix(t, "func "@) && {
        let name = go_name_part(t.skip(5));
        name.len() > 0 && unicode_uppercase(name[0])
    }
}

pub open spec fn jvm_pub_method(t: Seq<char>) -> bool {
    is_prefix(t, "public "@) && t.contains('(') && !is_prefix(t, "public class"@) && !is_prefix(
        t,
        "public interface"@,
    ) && !is_prefix(t, "//"@)
}

pub open spec fn pub_method_line(t: Seq<char>, lang: Language) -> bool {
    match lang {
        Language::Rust => rust_pub_method(t),
        Language::JsTs => jsts_pub_method(t),
        Language::Python => python_pub_method(t),
        Language::Go => go_pub_method(t),
        Language::Java | Language::Kotlin | Language::CSharp | Language::Php => jvm_pub_method(t),
        Language::Generic => false,
    }
}

pub open spec fn rust_property(t: Seq<char>) -> bool {
    is_prefix(t, "pub "@) && t.contains(':') && !is_prefix(t, "pub fn"@) && !is_prefix(
        t,
        "pub async fn"@,
    ) && !is_prefix(t, "pub struct"@) && !is_prefix(t, "pub enum"@) && !is_prefix(t, "pub mod"@)
        && !is_prefix(t, "pub use"@) && !is_prefix(t, "pub type"@) && !is_prefix(t, "pub trait"@)
        && !is_prefix(t, "pub const"@) && !is_prefix(t, "pub static"@) && !is_prefix(t, "//"@)
}

pub open spec fn jsts_property(t: Seq<char>) -> bool {
    (is_prefix(t, "this."@) && contains_seq(t, " = "@)) || ((is_prefix(t, "private "@) || is_prefix(
        t,
        "public "@,
    ) || is_prefix(t, "protected "@) || is_prefix(t, "readonly "@)) && t.contains(':')
        && !t.contains('('))
}

pub open spec fn python_property(t: Seq<char>) -> bool {
    is_prefix(t, "self."@) && contains_seq(t, " = "@)
}

pub open spec fn go_property(t: Seq<char>) -> bool {
    t.len() > 0 && unicode_uppercase(t[0]) && (contains_seq(t, "string"@) || contains_seq(t, "int"@)
        || contains_seq(t, "bool"@) || contains_seq(t, "float"@) || contains_seq(t, "[]"@)
        || contains_seq(t, "map["@)) && !t.contains('(') && !is_prefix(t, "//"@)
}

pub open spec fn jvm_property(t: Seq<char>) -> bool {
    (is_prefix(t, "private "@) || is_prefix(t, "public "@) || is_prefix(t, "protected "@))
        && !t.contains('(') && t.contains(';') && !is_prefix(t, "//"@)
}

pub open spec fn property_line(t: Seq<char>, lang: Language) -> bool {
    match lang {
        Language::Rust => rust_property(t),
        Language::JsTs => jsts_property(t),
        Language::Python => python_property(t),
        Language::Go => go_property(t),
        Language::Java | Language::Kotlin | Language::CSharp | Language::Php => jvm_property(t),
        Language::Generic => false,
    }
}

/// Number of lines whose trimmed form satisfies `p`.
pub open spec fn count_trimmed(ls: Seq<Seq<char>>, p: spec_fn(Seq<char>) -> bool) -> nat
    decreases ls.len(),
{
    if ls.len() == 0 {
        0
    } else {
        count_trimmed(ls.drop_last(), p) + if p(trim(ls.last())) {
            1nat
        } else {
            0nat
        }
    }
}

/// The decision keywords the line-based count looks for.
pub open spec fn keyword(k: int) -> Seq<char> {
    if k == 0 { " if "@ }
    else if k == 1 { "\tif "@ }
    else if k == 2 { "(if "@ }
    else if k == 3 { "else if"@ }
    else if k == 4 { "elif "@ }
    else if k == 5 { " for "@ }
    else if k == 6 { "\tfor "@ }
    else if k == 7 { " while "@ }
    else if k == 8 { "\twhile "@ }
    else if k == 9 { " match "@ }
    else if k == 10 { " switch "@ }
    else if k == 11 { " case "@ }
    else if k == 12 { " catch "@ }
    else if k == 13 { " except "@ }
    else if k == 14 { " loop "@ }
    else if k == 15 { "&&"@ }
    else if k == 16 { "||"@ }
    else { " ?? "@ }
}

pub const KEYWORD_COUNT: usize = 18;

/// Occurrences of the first `n` keywords in `s`.
pub open spec fn keyword_total(s: Seq<char>, n: int) -> nat
    decreases n,
{
    if n <= 0 {
        0
    } else {
        keyword_total(s, n - 1) + count_matches(s, keyword(n - 1))
    }
}

/// The number of `u32` values.
pub open spec fn u32_modulus() -> int {
    4294967296
}

fn keyword_at(k: usize) -> (s: &'static str)
    requires
        k < 18,
    ensures
        s@ == keyword(k as int),
{
    if k == 0 { " if " }
    else if k == 1 { "\tif " }
    else if k == 2 { "(if " }
    else if k == 3 { "else if" }
    else if k == 4 { "elif " }
    else if k == 5 { " for " }
    else if k == 6 { "\tfor " }
    else if k == 7 { " while " }
    else if k == 8 { "\twhile " }
    else if k == 9 { " match " }
    else if k == 10 { " switch " }
    else if k == 11 { " case " }
    else if k == 12 { " catch " }
    else if k == 13 { " except " }
    else if k == 14 { " loop " }
    else if k == 15 { "&&" }
    else if k == 16 { "||" }
    else { " ?? " }
}

proof fn lemma_keywords_nonempty(k: int)
    requires
        0 <= k < 18,
    ensures
        keyword(k).len() > 0,
{
    reveal_strlit(" if ");
    reveal_strlit("\tif ");
    reveal_strlit("(if ");
    reveal_strlit("else if");
    reveal_strlit("elif ");
    reveal_strlit(" for ");
    reveal_strlit("\tfor ");
    reveal_strlit(" while ");
    reveal_strlit("\twhile ");
    reveal_strlit(" match ");
    reveal_strlit(" switch ");
    reveal_strlit(" case ");
    reveal_strlit(" catch ");
    reveal_strlit(" except ");
    reveal_strlit(" loop ");
    reveal_strlit("&&");
    reveal_strlit("||");
    reveal_strlit(" ?? ");
}

/// Keyword-based decision count, each count truncated to `u32` and summed
/// with wrap-around.
fn count_complexity(content: &[char]) -> (n: u32)
    ensures
        n as int == keyword_total(content@, 18) as int % u32_modulus(),
{
    let mut count: u32 = 0;
    let mut k: usize = 0;
    while k < KEYWORD_COUNT
        invariant
            k <= 18,
            count as int == keyword_total(content@, k as int) as int % u32_modulus(),
        decreases 18 - k,
    {
        let kw = chars_of(keyword_at(k));
        proof {
            lemma_keywords_nonempty(k as int);
        }
        let m = count_occurrences(content, kw.as_slice());
        let ghost before = count;
        count = count.wrapping_add((m as u64 % 4294967296u64) as u32);
        proof {
            assert(count as int == (before as int + m as int % u32_modulus()) % u32_modulus());
            lemma_mod_sum(keyword_total(content@, k as int) as int, m as int);
        }
        k = k + 1;
    }
    count
}

proof fn lemma_mod_sum(a: int, b: int)
    requires
        a >= 0,
        b >= 0,
    ensures
        (a % u32_modulus() + b % u32_modulus()) % u32_modulus() == (a + b) % u32_modulus(),
{
    vstd::arithmetic::div_mod::lemma_add_mod_noop(a, b, u32_modulus());
}

fn comment_ok(t: &[char], lang: Language) -> (r: bool)
    ensures
        r == comment_line(t@, lang),
{
    comment_line_chars(t, lang)
}

fn go_pub_method_exec(t: &[char]) -> (r: bool)
    ensures
        r == go_pub_method(t@),
{
    if !starts_with_str(t, "func ") {
        return false;
    }
    proof {
        reveal_strlit("func ");
    }
    let rest = slice_vec(t, 5, t.len());
    assert(rest@ =~= t@.skip(5));
    let name: Vec<char> = if rest.len() > 0 && rest[0] == '(' {
        let mut i: usize = 0;
        while i < rest.len() && rest[i] != ')'
            invariant
                i <= rest@.len(),
                first_of(rest@, ')', 0) == first_of(rest@, ')', i as int),
            decreases rest.len() - i,
        {
            i = i + 1;
        }
        if i < rest.len() {
            let after = slice_vec(rest.as_slice(), i + 1, rest.len());
            assert(after@ =~= rest@.skip(i + 1));
            trimmed(after.as_slice())
        } else {
            Vec::new()
        }
    } else {
        rest
    };
    name.len() > 0 && is_uppercase(name[0])
}

fn pub_method_exec(t: &[char], lang: Language) -> (r: bool)
    ensures
        r == pub_method_line(t@, lang),
{
    match lang {
        Language::Rust => starts_with_str(t, "pub fn ") || starts_with_str(t, "pub async fn "),
        Language::JsTs => !starts_with_str(t, "//") && (starts_with_str(t, "export function ")
            || starts_with_str(t, "export async function ") || starts_with_str(t, "export const ")
            || (contains_str(t, "public ") && contains_char(t, '('))),
        Language::Python => starts_with_str(t, "def ") && !starts_with_str(t, "def _"),
        Language::Go => go_pub_method_exec(t),
        Language::Java | Language::Kotlin | Language::CSharp | Language::Php => starts_with_str(
            t,
            "public ",
        ) && contains_char(t, '(') && !starts_with_str(t, "public class") && !starts_with_str(
            t,
            "public interface",
        ) && !starts_with_str(t, "//"),
        Language::Generic => false,
    }
}

fn property_exec(t: &[char], lang: Language) -> (r: bool)
    ensures
        r == property_line(t@, lang),
{
    match lang {
        Language::Rust => starts_with_str(t, "pub ") && contains_char(t, ':') && !starts_with_str(
            t,
            "pub fn",
        ) && !starts_with_str(t, "pub async fn") && !starts_with_str(t, "pub struct")
            && !starts_with_str(t, "pub enum") && !starts_with_str(t, "pub mod")
            && !starts_with_str(t, "pub use") && !starts_with_str(t, "pub type")
            && !starts_with_str(t, "pub trait") && !starts_with_str(t, "pub const")
            && !starts_with_str(t, "pub static") && !starts_with_str(t, "//"),
        Language::JsTs => (starts_with_str(t, "this.") && contains_str(t, " = ")) || ((
        starts_with_str(t, "private ") || starts_with_str(t, "public ") || starts_with_str(
            t,
            "protected ",
        ) || starts_with_str(t, "readonly ")) && contains_char(t, ':') && !contains_char(t, '(')),
        Language::Python => starts_with_str(t, "self.") && contains_str(t, " = "),
        Language::Go => t.len() > 0 && is_uppercase(t[0]) && (contains_str(t, "string")
            || contains_str(t, "int") || contains_str(t, "bool") || contains_str(t, "float")
            || contains_str(t, "[]") || contains_str(t, "map[")) && !contains_char(t, '(')
            && !starts_with_str(t, "//"),
        Language::Java | Language::Kotlin | Language::CSharp | Language::Php => (starts_with_str(
            t,
            "private ",
        ) || starts_with_str(t, "public ") || starts_with_str(t, "protected "))
            && !contains_char(t, '(') && contains_char(t, ';') && !starts_with_str(t, "//"),
        Language::Generic => false,
    }
}

pub open spec fn code_pred(lang: Language) -> spec_fn(Seq<char>) -> bool {
    |t: Seq<char>| t.len() > 0 && !comment_line(t, lang)
}

pub open spec fn pub_pred(lang: Language) -> spec_fn(Seq<char>) -> bool {
    |t: Seq<char>| pub_method_line(t, lang)
}

pub open spec fn prop_pred(lang: Language) -> spec_fn(Seq<char>) -> bool {
    |t: Seq<char>| property_line(t, lang)
}

/// The line-based metrics of `content` in `lang`.
pub open spec fn fallback_spec(content: Seq<char>, lang: Language, r: FileComplexity) -> bool {
    let ls = lines(content);
    &&& r.total_lines == ls.len()
    &&& r.loc == count_trimmed(ls, code_pred(lang))
    &&& r.cyclomatic_complexity as int == if lang == Language::Generic {
        0
    } else {
        keyword_total(content, 18) as int % u32_modulus()
    }
    &&& r.public_methods as int == count_trimmed(ls, pub_pred(lang)) as int % u32_modulus()
    &&& r.properties as int == count_trimmed(ls, prop_pred(lang)) as int % u32_modulus()
}

/// Line-based metrics: line count, code lines (non-blank, non-comment),
/// keyword decision count (none for an unknown language, where prose
/// would match keywords by accident), public methods and properties.
pub fn analyse_content(content: &str, lang: Language) -> (r: FileComplexity)
    ensures
        fallback_spec(content@, lang, r),
{
    let text = chars_of(content);
    let ls = split_lines(text.as_slice());
    let ghost lv = lines(content@);
    let mut loc: usize = 0;
    let mut pubs: usize = 0;
    let mut props: usize = 0;
    let mut i: usize = 0;
    while i < ls.len()
        invariant
            i <= ls@.len(),
            ls@.len() == lv.len(),
            lv == lines(content@),
            forall|k: int| 0 <= k < ls@.len() ==> #[trigger] ls@[k]@ == lv[k],
            loc == count_trimmed(lv.take(i as int), code_pred(lang)),
            pubs == count_trimmed(lv.take(i as int), pub_pred(lang)),
            props == count_trimmed(lv.take(i as int), prop_pred(lang)),
            loc <= i,
            pubs <= i,
            props <= i,
        decreases ls.len() - i,
    {
        let t = trimmed(ls[i].as_slice());
        assert(t@ == trim(lv[i as int]));
        if t.len() > 0 && !comment_ok(t.as_slice(), lang) {
            loc = loc + 1;
        }
        if pub_method_exec(t.as_slice(), lang) {
            pubs = pubs + 1;
        }
        if property_exec(t.as_slice(), lang) {
            props = props + 1;
        }
        proof {
            let tk = lv.take(i + 1);
            assert(tk.drop_last() =~= lv.take(i as int));
            assert(tk.last() == lv[i as int]);
        }
        i = i + 1;
    }
    assert(lv.take(ls@.len() as int) =~= lv);
    let cc: u32 = match lang {
        Language::Generic => 0,
        _ => count_complexity(text.as_slice()),
    };
    FileComplexity {
        total_lines: ls.len(),
        loc,
        cyclomatic_complexity: cc,
        public_methods: (pubs as u64 % 4294967296u64) as u32,
        properties: (props as u64 % 4294967296u64) as u32,
    }
}

/// A path's language comes from its extension: `rs` is Rust; `js`, `ts`,
/// `jsx`, `tsx`, `mjs` and `cjs` are JS/TS; `py` Python; `go` Go; `java`
/// Java; `kt` and `kts` Kotlin; `cs` C#; `php` PHP; anything else is
/// generic.
pub proof fn lemma_languages_by_extension(ext: Seq<char>)
    ensures
        language_of_extension(ext) == Language::Rust <==> (ext == "rs"@),
        language_of_extension(ext) == Language::JsTs <==> (ext == "js"@ || ext == "ts"@ || ext == "jsx"@ || ext == "tsx"@ || ext == "mjs"@ || ext == "cjs"@),
        language_of_extension(ext) == Language::Python <==> (ext == "py"@),
        language_of_extension(ext) == Language::Go <==> (ext == "go"@),
        language_of_extension(ext) == Language::Java <==> (ext == "java"@),
        language_of_extension(ext) == Language::Kotlin <==> (ext == "kt"@ || ext == "kts"@),
        language_of_extension(ext) == Language::CSharp <==> (ext == "cs"@),
        language_of_extension(ext) == Language::Php <==> (ext == "php"@),
{
    reveal_strlit("rs");
    reveal_strlit("js");
    reveal_strlit("ts");
    reveal_strlit("jsx");
    reveal_strlit("tsx");
    reveal_strlit("mjs");
    reveal_strlit("cjs");
    reveal_strlit("py");
    reveal_strlit("go");
    reveal_strlit("java");
    reveal_strlit("kt");
    reveal_strlit("kts");
    reveal_strlit("cs");
    reveal_strlit("php");
    if ext == "rs"@ {
        assert(ext[0] != "js"@[0]);
        assert(ext[0] != "ts"@[0]);
        assert(ext.len() != "jsx"@.len());
        assert(ext.len() != "tsx"@.len());
        assert(ext.len() != "mjs"@.len());
        assert(ext.len() != "cjs"@.len());
        assert(ext[0] != "py"@[0]);
        assert(ext[0] != "go"@[0]);
        assert(ext.len() != "java"@.len());
        assert(ext[0] != "kt"@[0]);
        assert(ext.len() != "kts"@.len());
        assert(ext[0] != "cs"@[0]);
        assert(ext.len() != "php"@.len());
    }
    if ext == "js"@ {
        assert(ext[0] != "rs"@[0]);
        assert(ext[0] != "ts"@[0]);
        assert(ext.len() != "jsx"@.len());
        assert(ext.len() != "tsx"@.len());
        assert(ext.len() != "mjs"@.len());
        assert(ext.len() != "cjs"@.len());
        assert(ext[0] != "py"@[0]);
        assert(ext[0] != "go"@[0]);
        assert(ext.len() != "java"@.len());
        assert(ext[0] != "kt"@[0]);
        assert(ext.len() != "kts"@.len());
        assert(ext[0] != "cs"@[0]);
        assert(ext.len() != "php"@.len());
    }
    if ext == "ts"@ {
        assert(ext[0] != "rs"@[0]);
        assert(ext[0] != "js"@[0]);
        assert(ext.len() != "jsx"@.len());
        assert(ext.len() != "tsx"@.len());
        assert(ext.len() != "mjs"@.len());
        assert(ext.len() != "cjs"@.len());
        assert(ext[0] != "py"@[0]);
        assert(ext[0] != "go"@[0]);
        assert(ext.len() != "java"@.len());
        assert(ext[0] != "kt"@[0]);
        assert(ext.len() != "kts"@.len());
        assert(ext[0] != "cs"@[0]);
        assert(ext.len() != "php"@.len());
    }
    if ext == "jsx"@ {
        assert(ext.len() != "rs"@.len());
        assert(ext.len() != "js"@.len());
        assert(ext.len() != "ts"@.len());
        assert(ext[0] != "tsx"@[0]);
        assert(ext[0] != "mjs"@[0]);
        assert(ext[0] != "cjs"@[0]);
        assert(ext.len() != "py"@.len());
        assert(ext.len() != "go"@.len());
        assert(ext.len() != "java"@.len());
        assert(ext.len() != "kt"@.len());
        assert(ext[0] != "kts"@[0]);
        assert(ext.len() != "cs"@.len());
        assert(ext[0] != "php"@[0]);
    }
    if ext == "tsx"@ {
        assert(ext.len() != "rs"@.len());
        assert(ext.len() != "js"@.len());
        assert(ext.len() != "ts"@.len());
        assert(ext[0] != "jsx"@[0]);
        assert(ext[0] != "mjs"@[0]);
        assert(ext[0] != "cjs"@[0]);
        assert(ext.len() != "py"@.len());
        assert(ext.len() != "go"@.len());
        assert(ext.len() != "java"@.len());
        assert(ext.len() != "kt"@.len());
        assert(ext[0] != "kts"@[0]);
        assert(ext.len() != "cs"@.len());
        assert(ext[0] != "php"@[0]);
    }
    if ext == "mjs"@ {
        assert(ext.len() != "rs"@.len());
        assert(ext.len() != "js"@.len());
        assert(ext.len() != "ts"@.len());
        assert(ext[0] != "jsx"@[0]);
        assert(ext[0] != "tsx"@[0]);
        assert(ext[0] != "cjs"@[0]);
        assert(ext.len() != "py"@.len());
        assert(ext.len() != "go"@.len());
        assert(ext.len() != "java"@.len());
        assert(ext.len() != "kt"@.len());
        assert(ext[0] != "kts"@[0]);
        assert(ext.len() != "cs"@.len());
        assert(ext[0] != "php"@[0]);
    }
    if ext == "cjs"@ {
        assert(ext.len() != "rs"@.len());
        assert(ext.len() != "js"@.len());
        assert(ext.len() != "ts"@.len());
        assert(ext[0] != "jsx"@[0]);
        assert(ext[0] != "tsx"@[0]);
        assert(ext[0] != "mjs"@[0]);
        assert(ext.len() != "py"@.len());
        assert(ext.len() != "go"@.len());
        assert(ext.len() != "java"@.len());
        assert(ext.len() != "kt"@.len());
        assert(ext[0] != "kts"@[0]);
        assert(ext.len() != "cs"@.len());
        assert(ext[0] != "php"@[0]);
    }
    if ext == "py"@ {
        assert(ext[0] != "rs"@[0]);
        assert(ext[0] != "js"@[0]);
        assert(ext[0] != "ts"@[0]);
        assert(ext.len() != "jsx"@.len());
        assert(ext.len() != "tsx"@.len());
        assert(ext.len() != "mjs"@.len());
        assert(ext.len() != "cjs"@.len());
        assert(ext[0] != "go"@[0]);
        assert(ext.len() != "java"@.len());
        assert(ext[0] != "kt"@[0]);
        assert(ext.len() != "kts"@.len());
        assert(ext[0] != "cs"@[0]);
        assert(ext.len() != "php"@.len());
    }
    if ext == "go"@ {
        assert(ext[0] != "rs"@[0]);
        assert(ext[0] != "js"@[0]);
        assert(ext[0] != "ts"@[0]);
        assert(ext.len() != "jsx"@.len());
        assert(ext.len() != "tsx"@.len());
        assert(ext.len() != "mjs"@.len());
        assert(ext.len() != "cjs"@.len());
        assert(ext[0] != "py"@[0]);
        assert(ext.len() != "java"@.len());
        assert(ext[0] != "kt"@[0]);
        assert(ext.len() != "kts"@.len());
        assert(ext[0] != "cs"@[0]);
        assert(ext.len() != "php"@.len());
    }
    if ext == "java"@ {
        assert(ext.len() != "rs"@.len());
        assert(ext.len() != "js"@.len());
        assert(ext.len() != "ts"@.len());
        assert(ext.len() != "jsx"@.len());
        assert(ext.len() != "tsx"@.len());
        assert(ext.len() != "mjs"@.len());
        assert(ext.len() != "cjs"@.len());
        assert(ext.len() != "py"@.len());
        assert(ext.len() != "go"@.len());
        assert(ext.len() != "kt"@.len());
        assert(ext.len() != "kts"@.len());
        assert(ext.len() != "cs"@.len());
        assert(ext.len() != "php"@.len());
    }
    if ext == "kt"@ {
        assert(ext[0] != "rs"@[0]);
        assert(ext[0] != "js"@[0]);
        assert(ext[0] != "ts"@[0]);
        assert(ext.len() != "jsx"@.len());
        assert(ext.len() != "tsx"@.len());
        assert(ext.len() != "mjs"@.len());
        assert(ext.len() != "cjs"@.len());
        assert(ext[0] != "py"@[0]);
        assert(ext[0] != "go"@[0]);
        assert(ext.len() != "java"@.len());
        assert(ext.len() != "kts"@.len());
        assert(ext[0] != "cs"@[0]);
        assert(ext.len() != "php"@.len());
    }
    if ext == "kts"@ {
        assert(ext.len() != "rs"@.len());
        assert(ext.len() != "js"@.len());
        assert(ext.len() != "ts"@.len());
        assert(ext[0] != "jsx"@[0]);
        assert(ext[0] != "tsx"@[0]);
        assert(ext[0] != "mjs"@[0]);
        assert(ext[0] != "cjs"@[0]);
        assert(ext.len() != "py"@.len());
        assert(ext.len() != "go"@.len());
        assert(ext.len() != "java"@.len());
        assert(ext.len() != "kt"@.len());
        assert(ext.len() != "cs"@.len());
        assert(ext[0] != "php"@[0]);
    }
    if ext == "cs"@ {
        assert(ext[0] != "rs"@[0]);
        assert(ext[0] != "js"@[0]);
        assert(ext[0] != "ts"@[0]);
        assert(ext.len() != "jsx"@.len());
        assert(ext.len() != "tsx"@.len());
        assert(ext.len() != "mjs"@.len());
        assert(ext.len() != "cjs"@.len());
        assert(ext[0] != "py"@[0]);
        assert(ext[0] != "go"@[0]);
        assert(ext.len() != "java"@.len());
        assert(ext[0] != "kt"@[0]);
        assert(ext.len() != "kts"@.len());
        assert(ext.len() != "php"@.len());
    }
    if ext == "php"@ {
        assert(ext.len() != "rs"@.len());
        assert(ext.len() != "js"@.len());
        assert(ext.len() != "ts"@.len());
        assert(ext[0] != "jsx"@[0]);
        assert(ext[0] != "tsx"@[0]);
        assert(ext[0] != "mjs"@[0]);
        assert(ext[0] != "cjs"@[0]);
        assert(ext.len() != "py"@.len());
        assert(ext.len() != "go"@.len());
        assert(ext.len() != "java"@.len());
        assert(ext.len() != "kt"@.len());
        assert(ext[0] != "kts"@[0]);
        assert(ext.len() != "cs"@.len());
    }
}

/// The decision keywords the line-based fallback counts, in order.
pub open spec fn fallback_keywords() -> Seq<Seq<char>> {
    seq![
        " if "@,
        "\tif "@,
        "(if "@,
        "else if"@,
        "elif "@,
        " for "@,
        "\tfor "@,
        " while "@,
        "\twhile "@,
        " match "@,
        " switch "@,
        " case "@,
        " catch "@,
        " except "@,
        " loop "@,
        "&&"@,
        "||"@,
        " ?? "@,
    ]
}

/// The fallback counts exactly the eighteen documented decision keywords
/// and operators.
pub proof fn lemma_fallback_keywords(k: int)
    requires
        0 <= k < 18,
    ensures
        keyword(k) == fallback_keywords()[k],
{
}

} // verus!
