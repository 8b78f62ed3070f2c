//! The file metrics counted from query matches: cyclomatic complexity,
//! public methods, properties and lines of code.
use vstd::prelude::*;

use crate::metrics::complexity::fallback::Language;
use crate::metrics::complexity::lang_dispatch::{
    comment_query, comment_query_of, complexity_queries, complexity_queries_of,
};
use crate::metrics::complexity::queries::{
    CSHARP_COMMENTS, CSHARP_COMPLEXITY, CSHARP_COMPLEXITY_OPERATORS, CSHARP_PROPERTIES,
    CSHARP_PUBLIC_METHODS, GO_COMMENTS, GO_COMPLEXITY, GO_COMPLEXITY_OPERATORS, GO_PROPERTIES,
    GO_PUBLIC_METHODS, JAVA_COMMENTS, JAVA_COMPLEXITY, JAVA_COMPLEXITY_OPERATORS, JAVA_PROPERTIES,
    JAVA_PUBLIC_METHODS, JS_COMMENTS, JS_COMPLEXITY, JS_COMPLEXITY_OPERATORS, JS_PROPERTIES,
    JS_PUBLIC_METHODS, PYTHON_COMMENTS, PYTHON_COMPLEXITY, PYTHON_PUBLIC_METHODS, RUST_COMMENTS,
    RUST_COMPLEXITY, RUST_COMPLEXITY_OPERATORS, RUST_PROPERTIES, RUST_PUBLIC_METHODS,
    TS_PROPERTIES, TS_PUBLIC_METHODS,
};
use crate::metrics::complexity::treesitter::{
    capture_bytes, capture_views, captures_fit, collect_matches, fits, lemma_capture_fits,
    matches_of, query_count, run_query, saturate, Capture,
};
use crate::metrics::complexity::ts::{
    capture_index_for_name, ts_capture_index, ts_matches, ts_query_compiles, Grammar, Parsed,
};
use vstd::utf8::encode_utf8;
use crate::text::{chars_of, lines, split_lines, str_eq, trim, trimmed};

verus! {

/// Which captured text makes a match count.
#[derive(Debug, Clone, Copy, PartialEq, Eq, Structural)]
pub enum CaptureFilter {
    /// Starts with `pub` (Rust visibility).
    StartsWithPub,
    /// Does not start with `_` (Python).
    NoLeadingUnderscore,
    /// Starts with an ASCII capital (Go exports).
    LeadingUppercase,
    /// Contains `public` (Java modifiers).
    ContainsPublic,
    /// Is exactly `public` (a C# modifier).
    IsPublic,
}

pub open spec fn public_bytes() -> Seq<u8> {
    seq![112u8, 117u8, 98u8, 108u8, 105u8, 99u8]
}

pub open spec fn passes(f: CaptureFilter, b: Seq<u8>) -> bool {
    match f {
        CaptureFilter::StartsWithPub => b.len() >= 3 && b[0] == 112u8 && b[1] == 117u8 && b[2] == 98u8,
        CaptureFilter::NoLeadingUnderscore => !(b.len() >= 1 && b[0] == 95u8),
        CaptureFilter::LeadingUppercase => b.len() >= 1 && 65u8 <= b[0] <= 90u8,
        CaptureFilter::ContainsPublic => exists|i: int|
            0 <= i && i + 6 <= b.len() && #[trigger] b.subrange(i, i + 6) == public_bytes(),
        CaptureFilter::IsPublic => b == public_bytes(),
    }
}

/// Some capture of the match with index `idx` passes the filter.
pub open spec fn match_passes(m: Seq<Capture>, idx: u32, bytes: Seq<u8>, f: CaptureFilter) -> bool {
    exists|k: int| 0 <= k < m.len() && m[k].index == idx && passes(f, #[trigger] capture_bytes(bytes, m[k]))
}

/// How many of the first `j` matches pass.
pub open spec fn passing_upto(ms: Seq<Seq<Capture>>, idx: u32, bytes: Seq<u8>, f: CaptureFilter, j: int) -> int
    decreases j,
{
    if j <= 0 || j > ms.len() {
        0
    } else {
        passing_upto(ms, idx, bytes, f, j - 1) + if match_passes(ms[j - 1], idx, bytes, f) {
            1int
        } else {
            0int
        }
    }
}

fn passes_exec(f: CaptureFilter, b: &[u8], s: usize, e: usize) -> (r: bool)
    requires
        s <= e <= b@.len(),
    ensures
        r == passes(f, b@.subrange(s as int, e as int)),
{
    let ghost t = b@.subrange(s as int, e as int);
    let n = e - s;
    match f {
        CaptureFilter::StartsWithPub => n >= 3 && b[s] == 112u8 && b[s + 1] == 117u8 && b[s + 2] == 98u8,
        CaptureFilter::NoLeadingUnderscore => !(n >= 1 && b[s] == 95u8),
        CaptureFilter::LeadingUppercase => n >= 1 && 65u8 <= b[s] && b[s] <= 90u8,
        CaptureFilter::IsPublic => {
            let r = n == 6 && b[s] == 112u8 && b[s + 1] == 117u8 && b[s + 2] == 98u8 && b[s + 3] == 108u8
                && b[s + 4] == 105u8 && b[s + 5] == 99u8;
            proof {
                if n == 6 {
                    if r {
                        assert(t =~= public_bytes());
                    } else {
                        assert(t != public_bytes()) by {
                            if t == public_bytes() {
                                assert(t[0] == 112u8 && t[1] == 117u8 && t[2] == 98u8 && t[3] == 108u8
                                    && t[4] == 105u8 && t[5] == 99u8);
                            }
                        }
                    }
                } else {
                    assert(t.len() != public_bytes().len());
                }
            }
            r
        },
        CaptureFilter::ContainsPublic => {
            let mut i: usize = 0;
            let mut found = false;
            while !found && n >= 6 && i <= n - 6
                invariant
                    s <= e <= b@.len(),
                    n == e - s,
                    t == b@.subrange(s as int, e as int),
                    found ==> i + 6 <= n && t.subrange(i as int, i + 6) == public_bytes(),
                    !found ==> forall|j: int| 0 <= j < i ==> #[trigger] t.subrange(j, j + 6) != public_bytes(),
                decreases n + 1 - i - if found { 1int } else { 0int },
            {
                let k = s + i;
                if b[k] == 112u8 && b[k + 1] == 117u8 && b[k + 2] == 98u8 && b[k + 3] == 108u8
                    && b[k + 4] == 105u8 && b[k + 5] == 99u8 {
                    found = true;
                    assert(t.subrange(i as int, i + 6) =~= public_bytes());
                } else {
                    assert(t.subrange(i as int, i + 6) != public_bytes()) by {
                        if t.subrange(i as int, i + 6) == public_bytes() {
                            let w = t.subrange(i as int, i + 6);
                            assert(w[0] == b@[k as int] && w[1] == b@[k + 1] && w[2] == b@[k + 2]);
                            assert(w[3] == b@[k + 3] && w[4] == b@[k + 4] && w[5] == b@[k + 5]);
                        }
                    }
                    i = i + 1;
                }
            }
            proof {
                if !found {
                    assert forall|j: int| 0 <= j && j + 6 <= t.len() implies #[trigger] t.subrange(j, j + 6)
                        != public_bytes() by {}
                }
            }
            found
        },
    }
}

/// How many matches have a capture with index `idx` whose bytes pass the
/// filter, saturating at `u32::MAX`.
pub fn count_passing(ms: &Vec<Vec<Capture>>, idx: u32, bytes: &[u8], f: CaptureFilter) -> (r: u32)
    requires
        captures_fit(capture_views(ms@), bytes@.len() as int),
    ensures
        r as int == if passing_upto(capture_views(ms@), idx, bytes@, f, ms@.len() as int) <= u32::MAX {
            passing_upto(capture_views(ms@), idx, bytes@, f, ms@.len() as int)
        } else {
            u32::MAX as int
        },
{
    let ghost cv = capture_views(ms@);
    let mut count: u64 = 0;
    let mut j: usize = 0;
    while j < ms.len()
        invariant
            j <= ms@.len(),
            cv == capture_views(ms@),
            captures_fit(cv, bytes@.len() as int),
            count as int == passing_upto(cv, idx, bytes@, f, j as int),
            count <= j,
        decreases ms.len() - j,
    {
        let m = &ms[j];
        let mut k: usize = 0;
        let mut hit = false;
        while !hit && k < m.len()
            invariant
                j < ms@.len(),
                k <= m@.len(),
                m@ == cv[j as int],
                cv == capture_views(ms@),
                captures_fit(cv, bytes@.len() as int),
                hit ==> match_passes(m@, idx, bytes@, f),
                !hit ==> forall|q: int| 0 <= q < k ==> !(m@[q].index == idx && passes(f, #[trigger] capture_bytes(bytes@, m@[q]))),
            decreases m.len() - k + if hit { 0int } else { 1int },
        {
            let c = m[k];
            proof {
                lemma_capture_fits(cv, bytes@.len() as int, j as int, k as int);
            }
            if c.index == idx && passes_exec(f, bytes, c.start_byte, c.end_byte) {
                hit = true;
                assert(passes(f, capture_bytes(bytes@, m@[k as int])));
            } else {
                k = k + 1;
            }
        }
        proof {
            if !hit {
                assert(!match_passes(m@, idx, bytes@, f));
            }
            assert(cv[j as int] == m@);
        }
        if hit {
            count = count + 1;
        }
        j = j + 1;
    }
    if count <= 4294967295 {
        count as u32
    } else {
        4294967295
    }
}

/// How many matches of the query `query` over the parse of `text` have a
/// capture named `name` whose bytes pass the filter, saturating at
/// `u32::MAX`. None where the query does not compile or a capture lies
/// outside the text; an unknown capture name is taken as index 0.
pub open spec fn visible_count(g: Grammar, query: Seq<char>, name: Seq<char>, text: Seq<char>, f: CaptureFilter) -> int {
    let ms = ts_matches(g, query, text);
    let bytes = encode_utf8(text);
    let idx = match ts_capture_index(g, query, name) {
        Some(i) => i,
        None => 0u32,
    };
    if ts_query_compiles(g, query) && captures_fit(ms, bytes.len() as int) {
        saturate(passing_upto(ms, idx, bytes, f, ms.len() as int))
    } else {
        0
    }
}

/// Matches of a query whose capture `capture_name` passes the filter.
pub fn count_with_visibility_filter(
    parsed: &Parsed,
    source: &str,
    query_src: &str,
    capture_name: &str,
    filter: CaptureFilter,
) -> (r: u32)
    requires
        parsed@.1 == source@,
    ensures
        r == visible_count(parsed@.0, query_src@, capture_name@, source@, filter),
{
    let (query, ms) = collect_matches(parsed, source, query_src);
    let query = match query {
        Some(q) => q,
        None => return 0,
    };
    let idx = match capture_index_for_name(&query, capture_name) {
        Some(i) => i,
        None => 0,
    };
    let bytes = source.as_bytes();
    if !fits(&ms, bytes.len()) {
        return 0;
    }
    count_passing(&ms, idx, bytes, filter)
}

/// Cyclomatic complexity of the parse of `text`: matches of the language's
/// decision-statement query plus those of its short-circuit operator query,
/// saturating at `u32::MAX`.
pub open spec fn complexity_spec(g: Grammar, lang: Language, text: Seq<char>) -> int {
    let (stmts, ops) = complexity_queries_of(lang);
    saturate(query_count(g, stmts@, text) + match ops {
        Some(q) => query_count(g, q@, text),
        None => 0int,
    })
}

/// Cyclomatic complexity: decision statements plus short-circuit operators,
/// saturating at `u32::MAX`.
pub fn count_complexity(parsed: &Parsed, source: &str, lang: Language, ext: &str) -> (r: u32)
    requires
        parsed@.1 == source@,
    ensures
        r == complexity_spec(parsed@.0, lang, source@),
{
    let (stmt_query, op_query) = complexity_queries(lang, ext);
    let stmts = run_query(parsed, source, stmt_query);
    let ops = match op_query {
        Some(q) => run_query(parsed, source, q),
        None => 0,
    };
    if (stmts as u64) + (ops as u64) <= 4294967295 {
        stmts + ops
    } else {
        4294967295
    }
}

/// The TypeScript flavour of a JS/TS extension.
pub open spec fn is_ts_ext(ext: Seq<char>) -> bool {
    ext == "ts"@ || ext == "tsx"@
}

/// Public methods of the parse of `text`, by each language's notion of
/// public; none for languages without a grammar.
pub open spec fn public_methods_spec(g: Grammar, lang: Language, ext: Seq<char>, text: Seq<char>) -> int {
    match lang {
        Language::Rust => visible_count(g, RUST_PUBLIC_METHODS@, "vis"@, text, CaptureFilter::StartsWithPub),
        Language::Python => visible_count(g, PYTHON_PUBLIC_METHODS@, "name"@, text, CaptureFilter::NoLeadingUnderscore),
        Language::Go => visible_count(g, GO_PUBLIC_METHODS@, "name"@, text, CaptureFilter::LeadingUppercase),
        Language::Java => visible_count(g, JAVA_PUBLIC_METHODS@, "mods"@, text, CaptureFilter::ContainsPublic),
        Language::CSharp => visible_count(g, CSHARP_PUBLIC_METHODS@, "mod"@, text, CaptureFilter::IsPublic),
        Language::JsTs => query_count(g, if is_ts_ext(ext) { TS_PUBLIC_METHODS@ } else { JS_PUBLIC_METHODS@ }, text),
        _ => 0,
    }
}

/// Public methods, by each language's notion of public.
pub fn count_public_methods(parsed: &Parsed, source: &str, lang: Language, ext: &str) -> (r: u32)
    requires
        parsed@.1 == source@,
    ensures
        r == public_methods_spec(parsed@.0, lang, ext@, source@),
{
    match lang {
        Language::Rust => count_with_visibility_filter(parsed, source, RUST_PUBLIC_METHODS, "vis", CaptureFilter::StartsWithPub),
        Language::Python => count_with_visibility_filter(parsed, source, PYTHON_PUBLIC_METHODS, "name", CaptureFilter::NoLeadingUnderscore),
        Language::Go => count_with_visibility_filter(parsed, source, GO_PUBLIC_METHODS, "name", CaptureFilter::LeadingUppercase),
        Language::Java => count_with_visibility_filter(parsed, source, JAVA_PUBLIC_METHODS, "mods", CaptureFilter::ContainsPublic),
        Language::CSharp => count_with_visibility_filter(parsed, source, CSHARP_PUBLIC_METHODS, "mod", CaptureFilter::IsPublic),
        Language::JsTs => {
            let q = if str_eq(ext, "ts") || str_eq(ext, "tsx") {
                TS_PUBLIC_METHODS
            } else {
                JS_PUBLIC_METHODS
            };
            run_query(parsed, source, q)
        },
        _ => 0,
    }
}

/// Properties of the parse of `text`, by each language's notion of public;
/// none for Python and for languages without a grammar.
pub open spec fn properties_spec(g: Grammar, lang: Language, ext: Seq<char>, text: Seq<char>) -> int {
    match lang {
        Language::Rust => visible_count(g, RUST_PROPERTIES@, "vis"@, text, CaptureFilter::StartsWithPub),
        Language::Go => visible_count(g, GO_PROPERTIES@, "name"@, text, CaptureFilter::LeadingUppercase),
        Language::Java => query_count(g, JAVA_PROPERTIES@, text),
        Language::CSharp => query_count(g, CSHARP_PROPERTIES@, text),
        Language::JsTs => query_count(g, if is_ts_ext(ext) { TS_PROPERTIES@ } else { JS_PROPERTIES@ }, text),
        _ => 0,
    }
}

/// Properties (fields), by each language's notion of public.
pub fn count_properties(parsed: &Parsed, source: &str, lang: Language, ext: &str) -> (r: u32)
    requires
        parsed@.1 == source@,
    ensures
        r == properties_spec(parsed@.0, lang, ext@, source@),
{
    match lang {
        Language::Rust => count_with_visibility_filter(parsed, source, RUST_PROPERTIES, "vis", CaptureFilter::StartsWithPub),
        Language::Go => count_with_visibility_filter(parsed, source, GO_PROPERTIES, "name", CaptureFilter::LeadingUppercase),
        Language::Java => run_query(parsed, source, JAVA_PROPERTIES),
        Language::CSharp => run_query(parsed, source, CSHARP_PROPERTIES),
        Language::JsTs => {
            let q = if str_eq(ext, "ts") || str_eq(ext, "tsx") {
                TS_PROPERTIES
            } else {
                JS_PROPERTIES
            };
            run_query(parsed, source, q)
        },
        _ => 0,
    }
}

// ── Lines of code ──────────────────────────────────────────────────────

/// Some capture's rows span `row`.
pub open spec fn covered(ms: Seq<Seq<Capture>>, row: int) -> bool {
    exists|j: int, k: int|
        0 <= j < ms.len() && 0 <= k < ms[j].len() && #[trigger] ms[j][k].start_row <= row
            <= ms[j][k].end_row
}

/// How many of the first `i` lines are neither blank nor spanned by a
/// comment.
pub open spec fn code_lines_upto(ls: Seq<Seq<char>>, ms: Seq<Seq<Capture>>, i: int) -> int
    decreases i,
{
    if i <= 0 || i > ls.len() {
        0
    } else {
        code_lines_upto(ls, ms, i - 1) + if trim(ls[i - 1]).len() > 0 && !covered(ms, i - 1) {
            1int
        } else {
            0int
        }
    }
}

/// The lines of `content` that are neither blank nor within a comment
/// capture's rows.
pub fn loc_outside_comments(content: &str, ms: &Vec<Vec<Capture>>) -> (r: usize)
    ensures
        r == code_lines_upto(lines(content@), capture_views(ms@), lines(content@).len() as int),
{
    let text = chars_of(content);
    let ls = split_lines(text.as_slice());
    let ghost lv = lines(content@);
    let ghost cv = capture_views(ms@);
    let n = ls.len();
    let mut marks: Vec<bool> = Vec::new();
    let mut i: usize = 0;
    while i < n
        invariant
            i <= n,
            marks@.len() == i,
            forall|r: int| 0 <= r < i ==> !#[trigger] marks@[r],
        decreases n - i,
    {
        marks.push(false);
        i = i + 1;
    }
    let mut j: usize = 0;
    while j < ms.len()
        invariant
            j <= ms@.len(),
            cv == capture_views(ms@),
            marks@.len() == n,
            forall|r: int| 0 <= r < n ==> (#[trigger] marks@[r] <==> covered(cv.take(j as int), r)),
        decreases ms.len() - j,
    {
        let m = &ms[j];
        let mut k: usize = 0;
        while k < m.len()
            invariant
                j < ms@.len(),
                k <= m@.len(),
                m@ == cv[j as int],
                cv == capture_views(ms@),
                marks@.len() == n,
                forall|r: int| 0 <= r < n ==> (#[trigger] marks@[r] <==> (covered(cv.take(j as int), r)
                    || exists|q: int| 0 <= q < k && #[trigger] m@[q].start_row <= r <= m@[q].end_row)),
            decreases m.len() - k,
        {
            let c = m[k];
            let mut row = c.start_row;
            let ghost before = marks@;
            while row < n && row <= c.end_row
                invariant
                    marks@.len() == n,
                    c.start_row <= row,
                    forall|r: int| 0 <= r < n ==> (#[trigger] marks@[r] <==> (before[r] || (c.start_row <= r < row
                        && r <= c.end_row))),
                decreases n - row,
            {
                marks.set(row, true);
                row = row + 1;
            }
            proof {
                assert forall|r: int| 0 <= r < n implies (#[trigger] marks@[r] <==> (covered(cv.take(j as int), r)
                    || exists|q: int| 0 <= q < k + 1 && #[trigger] m@[q].start_row <= r <= m@[q].end_row)) by {
                    if c.start_row <= r <= c.end_row {
                        assert(m@[k as int].start_row <= r <= m@[k as int].end_row);
                        assert(marks@[r]);
                    }
                    if exists|q: int| 0 <= q < k + 1 && #[trigger] m@[q].start_row <= r <= m@[q].end_row {
                        let q = choose|q: int| 0 <= q < k + 1 && #[trigger] m@[q].start_row <= r <= m@[q].end_row;
                        if q < k {
                            assert(before[r]);
                        }
                    }
                }
            }
            k = k + 1;
        }
        proof {
            let nt = cv.take(j + 1);
            assert forall|r: int| 0 <= r < n implies (#[trigger] marks@[r] <==> covered(nt, r)) by {
                if covered(nt, r) {
                    let (a, q) = choose|a: int, q: int| 0 <= a < nt.len() && 0 <= q < nt[a].len() && #[trigger] nt[a][q].start_row <= r <= nt[a][q].end_row;
                    if a < j {
                        assert(cv.take(j as int)[a] == nt[a]);
                        assert(covered(cv.take(j as int), r));
                    } else {
                        assert(m@[q].start_row <= r <= m@[q].end_row);
                    }
                }
                if covered(cv.take(j as int), r) {
                    let (a, q) = choose|a: int, q: int| 0 <= a < cv.take(j as int).len() && 0 <= q < cv.take(j as int)[a].len() && #[trigger] cv.take(j as int)[a][q].start_row <= r <= cv.take(j as int)[a][q].end_row;
                    assert(nt[a] == cv.take(j as int)[a]);
                    assert(nt[a][q].start_row <= r <= nt[a][q].end_row);
                }
                if exists|q: int| 0 <= q < m@.len() && #[trigger] m@[q].start_row <= r <= m@[q].end_row {
                    let q = choose|q: int| 0 <= q < m@.len() && #[trigger] m@[q].start_row <= r <= m@[q].end_row;
                    assert(nt[j as int] == m@);
                    assert(nt[j as int][q].start_row <= r <= nt[j as int][q].end_row);
                }
            }
        }
        j = j + 1;
    }
    assert(cv.take(ms@.len() as int) =~= cv);
    let mut count: usize = 0;
    let mut i: usize = 0;
    while i < n
        invariant
            i <= n == ls@.len(),
            ls@.len() == lv.len(),
            lv == lines(content@),
            forall|q: int| 0 <= q < ls@.len() ==> #[trigger] ls@[q]@ == lv[q],
            marks@.len() == n,
            forall|r: int| 0 <= r < n ==> (#[trigger] marks@[r] <==> covered(cv, r)),
            count as int == code_lines_upto(lv, cv, i as int),
            count <= i,
        decreases n - i,
    {
        let t = trimmed(ls[i].as_slice());
        if t.len() > 0 && !marks[i] {
            count = count + 1;
        }
        i = i + 1;
    }
    count
}

/// The lines of `content` that are not blank.
pub fn non_blank_lines(content: &str) -> (r: usize)
    ensures
        r == code_lines_upto(lines(content@), Seq::<Seq<Capture>>::empty(), lines(content@).len() as int),
{
    let ms: Vec<Vec<Capture>> = Vec::new();
    assert(capture_views(ms@) =~= Seq::<Seq<Capture>>::empty());
    loc_outside_comments(content, &ms)
}

/// Lines of code of `text`: the non-blank lines outside the rows of the
/// language's comment-query captures over its parse; every non-blank line
/// where the comment query does not compile.
pub open spec fn loc_spec(g: Grammar, lang: Language, text: Seq<char>) -> int {
    code_lines_upto(lines(text), matches_of(g, comment_query_of(lang)@, text), lines(text).len() as int)
}

/// Lines of code: non-blank lines outside comments; when the comment query
/// does not compile, every non-blank line.
pub fn count_loc(content: &str, parsed: &Parsed, lang: Language, ext: &str) -> (r: usize)
    requires
        parsed@.1 == content@,
    ensures
        r == loc_spec(parsed@.0, lang, content@),
        r <= lines(content@).len(),
{
    let (query, ms) = collect_matches(parsed, content, comment_query(lang, ext));
    let r = match query {
        Some(_) => loc_outside_comments(content, &ms),
        None => non_blank_lines(content),
    };
    proof {
        lemma_code_lines_bound(lines(content@), capture_views(ms@), lines(content@).len() as int);
    }
    r
}

proof fn lemma_code_lines_bound(ls: Seq<Seq<char>>, ms: Seq<Seq<Capture>>, i: int)
    requires
        0 <= i <= ls.len(),
    ensures
        0 <= code_lines_upto(ls, ms, i) <= i,
    decreases i,
{
    if i > 0 {
        lemma_code_lines_bound(ls, ms, i - 1);
    }
}

// ── What counts as public ──────────────────────────────────────────────

/// The bytes hold the word `public` somewhere.
pub open spec fn contains_public(b: Seq<u8>) -> bool {
    exists|x: Seq<u8>, y: Seq<u8>| b == #[trigger] (x + public_bytes() + y)
}

/// The contains-`public` filter passes exactly the texts that hold
/// `public` somewhere, whatever comes before or after it.
pub proof fn lemma_contains_public_filter(b: Seq<u8>)
    ensures
        passes(CaptureFilter::ContainsPublic, b) <==> contains_public(b),
{
    if passes(CaptureFilter::ContainsPublic, b) {
        let i = choose|i: int| 0 <= i && i + 6 <= b.len() && #[trigger] b.subrange(i, i + 6) == public_bytes();
        let x = b.subrange(0, i);
        let y = b.subrange(i + 6, b.len() as int);
        assert(b =~= x + public_bytes() + y);
    }
    if contains_public(b) {
        let (x, y) = choose|x: Seq<u8>, y: Seq<u8>| b == #[trigger] (x + public_bytes() + y);
        let i = x.len() as int;
        assert(b.subrange(i, i + 6) =~= public_bytes());
    }
}

proof fn lemma_passing_upto_same_filter(
    ms: Seq<Seq<Capture>>,
    idx: u32,
    bytes: Seq<u8>,
    f1: CaptureFilter,
    f2: CaptureFilter,
    j: int,
)
    requires
        forall|b: Seq<u8>| passes(f1, b) <==> passes(f2, b),
    ensures
        passing_upto(ms, idx, bytes, f1, j) == passing_upto(ms, idx, bytes, f2, j),
    decreases j,
{
    if j > 0 && j <= ms.len() {
        lemma_passing_upto_same_filter(ms, idx, bytes, f1, f2, j - 1);
        let m = ms[j - 1];
        assert(match_passes(m, idx, bytes, f1) == match_passes(m, idx, bytes, f2)) by {
            if match_passes(m, idx, bytes, f1) {
                let k = choose|k: int| 0 <= k < m.len() && m[k].index == idx && passes(f1, #[trigger] capture_bytes(bytes, m[k]));
                assert(passes(f2, capture_bytes(bytes, m[k])));
            }
            if match_passes(m, idx, bytes, f2) {
                let k = choose|k: int| 0 <= k < m.len() && m[k].index == idx && passes(f2, #[trigger] capture_bytes(bytes, m[k]));
                assert(passes(f1, capture_bytes(bytes, m[k])));
            }
        }
    }
}

/// A Java method counts as public when its modifiers hold `public`
/// anywhere (`public static`, `@Override public`, ...): the count is that
/// of the `mods` captures that pass any filter that lets through exactly
/// the texts holding `public`.
pub proof fn lemma_java_public_methods_have_public_among_their_modifiers(
    g: Grammar,
    ext: Seq<char>,
    text: Seq<char>,
    f: CaptureFilter,
)
    requires
        forall|b: Seq<u8>| passes(f, b) <==> contains_public(b),
    ensures
        public_methods_spec(g, Language::Java, ext, text) == visible_count(g, JAVA_PUBLIC_METHODS@, "mods"@, text, f),
{
    assert forall|b: Seq<u8>| passes(f, b) <==> passes(CaptureFilter::ContainsPublic, b) by {
        lemma_contains_public_filter(b);
    }
    let ms = ts_matches(g, JAVA_PUBLIC_METHODS@, text);
    let bytes = encode_utf8(text);
    let idx = match ts_capture_index(g, JAVA_PUBLIC_METHODS@, "mods"@) {
        Some(i) => i,
        None => 0u32,
    };
    lemma_passing_upto_same_filter(ms, idx, bytes, f, CaptureFilter::ContainsPublic, ms.len() as int);
}

/// The bytes begin with `pub`.
pub open spec fn starts_with_pub(b: Seq<u8>) -> bool {
    b.len() >= 3 && b.subrange(0, 3) == seq![112u8, 117u8, 98u8]
}

/// The bytes begin with `_`.
pub open spec fn starts_with_underscore(b: Seq<u8>) -> bool {
    b.len() >= 1 && b.first() == 95u8
}

/// The bytes begin with an ASCII capital letter.
pub open spec fn starts_with_capital(b: Seq<u8>) -> bool {
    b.len() >= 1 && 65u8 <= b.first() <= 90u8
}

proof fn lemma_filters_mean(b: Seq<u8>)
    ensures
        passes(CaptureFilter::StartsWithPub, b) <==> starts_with_pub(b),
        passes(CaptureFilter::NoLeadingUnderscore, b) <==> !starts_with_underscore(b),
        passes(CaptureFilter::LeadingUppercase, b) <==> starts_with_capital(b),
        passes(CaptureFilter::IsPublic, b) <==> b == seq![112u8, 117u8, 98u8, 108u8, 105u8, 99u8],
{
    if b.len() >= 3 {
        if passes(CaptureFilter::StartsWithPub, b) {
            assert(b.subrange(0, 3) =~= seq![112u8, 117u8, 98u8]);
        }
        if starts_with_pub(b) {
            assert(b.subrange(0, 3)[0] == b[0] && b.subrange(0, 3)[1] == b[1] && b.subrange(0, 3)[2] == b[2]);
        }
    }
}

proof fn lemma_visible_count_same_filter(g: Grammar, query: Seq<char>, name: Seq<char>, text: Seq<char>, f1: CaptureFilter, f2: CaptureFilter)
    requires
        forall|b: Seq<u8>| passes(f1, b) <==> passes(f2, b),
    ensures
        visible_count(g, query, name, text, f1) == visible_count(g, query, name, text, f2),
{
    let ms = ts_matches(g, query, text);
    let idx = match ts_capture_index(g, query, name) {
        Some(i) => i,
        None => 0u32,
    };
    lemma_passing_upto_same_filter(ms, idx, encode_utf8(text), f1, f2, ms.len() as int);
}

/// Rust items count as public when their visibility modifier begins with
/// `pub` (`pub`, `pub(crate)`, ...): public methods over the `vis`
/// captures of the method query, properties over those of the field query.
pub proof fn lemma_rust_public_items_start_with_pub(g: Grammar, ext: Seq<char>, text: Seq<char>, f: CaptureFilter)
    requires
        forall|b: Seq<u8>| passes(f, b) <==> starts_with_pub(b),
    ensures
        public_methods_spec(g, Language::Rust, ext, text) == visible_count(g, RUST_PUBLIC_METHODS@, "vis"@, text, f),
        properties_spec(g, Language::Rust, ext, text) == visible_count(g, RUST_PROPERTIES@, "vis"@, text, f),
{
    assert forall|b: Seq<u8>| passes(f, b) <==> passes(CaptureFilter::StartsWithPub, b) by {
        lemma_filters_mean(b);
    }
    lemma_visible_count_same_filter(g, RUST_PUBLIC_METHODS@, "vis"@, text, f, CaptureFilter::StartsWithPub);
    lemma_visible_count_same_filter(g, RUST_PROPERTIES@, "vis"@, text, f, CaptureFilter::StartsWithPub);
}

/// Python methods count as public when their name does not begin with `_`.
pub proof fn lemma_python_public_methods_have_no_leading_underscore(g: Grammar, ext: Seq<char>, text: Seq<char>, f: CaptureFilter)
    requires
        forall|b: Seq<u8>| passes(f, b) <==> !starts_with_underscore(b),
    ensures
        public_methods_spec(g, Language::Python, ext, text) == visible_count(g, PYTHON_PUBLIC_METHODS@, "name"@, text, f),
        properties_spec(g, Language::Python, ext, text) == 0,
{
    assert forall|b: Seq<u8>| passes(f, b) <==> passes(CaptureFilter::NoLeadingUnderscore, b) by {
        lemma_filters_mean(b);
    }
    lemma_visible_count_same_filter(g, PYTHON_PUBLIC_METHODS@, "name"@, text, f, CaptureFilter::NoLeadingUnderscore);
}

/// Go methods and fields count as public (exported) when their name begins
/// with an ASCII capital.
pub proof fn lemma_go_public_items_are_capitalised(g: Grammar, ext: Seq<char>, text: Seq<char>, f: CaptureFilter)
    requires
        forall|b: Seq<u8>| passes(f, b) <==> starts_with_capital(b),
    ensures
        public_methods_spec(g, Language::Go, ext, text) == visible_count(g, GO_PUBLIC_METHODS@, "name"@, text, f),
        properties_spec(g, Language::Go, ext, text) == visible_count(g, GO_PROPERTIES@, "name"@, text, f),
{
    assert forall|b: Seq<u8>| passes(f, b) <==> passes(CaptureFilter::LeadingUppercase, b) by {
        lemma_filters_mean(b);
    }
    lemma_visible_count_same_filter(g, GO_PUBLIC_METHODS@, "name"@, text, f, CaptureFilter::LeadingUppercase);
    lemma_visible_count_same_filter(g, GO_PROPERTIES@, "name"@, text, f, CaptureFilter::LeadingUppercase);
}

/// C# methods count as public when one of their modifiers is exactly
/// `public`.
pub proof fn lemma_csharp_public_methods_carry_the_public_modifier(g: Grammar, ext: Seq<char>, text: Seq<char>, f: CaptureFilter)
    requires
        forall|b: Seq<u8>| passes(f, b) <==> b == seq![112u8, 117u8, 98u8, 108u8, 105u8, 99u8],
    ensures
        public_methods_spec(g, Language::CSharp, ext, text) == visible_count(g, CSHARP_PUBLIC_METHODS@, "mod"@, text, f),
{
    assert forall|b: Seq<u8>| passes(f, b) <==> passes(CaptureFilter::IsPublic, b) by {
        lemma_filters_mean(b);
    }
    lemma_visible_count_same_filter(g, CSHARP_PUBLIC_METHODS@, "mod"@, text, f, CaptureFilter::IsPublic);
}

/// Java, C# and JS/TS properties, and JS/TS public methods, are the matches
/// of the language's own query, TypeScript's for `.ts` and `.tsx` files and
/// JavaScript's otherwise; Kotlin, PHP and unknown languages count none.
pub proof fn lemma_query_counted_items(g: Grammar, ext: Seq<char>, text: Seq<char>)
    ensures
        properties_spec(g, Language::Java, ext, text) == query_count(g, JAVA_PROPERTIES@, text),
        properties_spec(g, Language::CSharp, ext, text) == query_count(g, CSHARP_PROPERTIES@, text),
        (ext == "ts"@ || ext == "tsx"@) ==> public_methods_spec(g, Language::JsTs, ext, text) == query_count(
            g,
            TS_PUBLIC_METHODS@,
            text,
        ) && properties_spec(g, Language::JsTs, ext, text) == query_count(g, TS_PROPERTIES@, text),
        !(ext == "ts"@ || ext == "tsx"@) ==> public_methods_spec(g, Language::JsTs, ext, text) == query_count(
            g,
            JS_PUBLIC_METHODS@,
            text,
        ) && properties_spec(g, Language::JsTs, ext, text) == query_count(g, JS_PROPERTIES@, text),
        public_methods_spec(g, Language::Kotlin, ext, text) == 0 && properties_spec(g, Language::Kotlin, ext, text) == 0,
        public_methods_spec(g, Language::Php, ext, text) == 0 && properties_spec(g, Language::Php, ext, text) == 0,
        public_methods_spec(g, Language::Generic, ext, text) == 0 && properties_spec(g, Language::Generic, ext, text) == 0,
{
}

/// Cyclomatic complexity adds the decision statements and short-circuit
/// operators that the language's own queries match (Python has no
/// operator query), and lines of code leave out the rows of the language's
/// own comment query.
pub proof fn lemma_each_language_runs_its_own_queries(g: Grammar, text: Seq<char>)
    ensures
        complexity_spec(g, Language::Rust, text) == saturate(query_count(g, RUST_COMPLEXITY@, text) + query_count(g, RUST_COMPLEXITY_OPERATORS@, text)),
        complexity_spec(g, Language::JsTs, text) == saturate(query_count(g, JS_COMPLEXITY@, text) + query_count(g, JS_COMPLEXITY_OPERATORS@, text)),
        complexity_spec(g, Language::Python, text) == saturate(query_count(g, PYTHON_COMPLEXITY@, text)),
        complexity_spec(g, Language::Go, text) == saturate(query_count(g, GO_COMPLEXITY@, text) + query_count(g, GO_COMPLEXITY_OPERATORS@, text)),
        complexity_spec(g, Language::Java, text) == saturate(query_count(g, JAVA_COMPLEXITY@, text) + query_count(g, JAVA_COMPLEXITY_OPERATORS@, text)),
        complexity_spec(g, Language::CSharp, text) == saturate(query_count(g, CSHARP_COMPLEXITY@, text) + query_count(g, CSHARP_COMPLEXITY_OPERATORS@, text)),
        loc_spec(g, Language::Rust, text) == code_lines_upto(lines(text), matches_of(g, RUST_COMMENTS@, text), lines(text).len() as int),
        loc_spec(g, Language::JsTs, text) == code_lines_upto(lines(text), matches_of(g, JS_COMMENTS@, text), lines(text).len() as int),
        loc_spec(g, Language::Python, text) == code_lines_upto(lines(text), matches_of(g, PYTHON_COMMENTS@, text), lines(text).len() as int),
        loc_spec(g, Language::Go, text) == code_lines_upto(lines(text), matches_of(g, GO_COMMENTS@, text), lines(text).len() as int),
        loc_spec(g, Language::Java, text) == code_lines_upto(lines(text), matches_of(g, JAVA_COMMENTS@, text), lines(text).len() as int),
        loc_spec(g, Language::CSharp, text) == code_lines_upto(lines(text), matches_of(g, CSHARP_COMMENTS@, text), lines(text).len() as int),
{
}

} // verus!
