//! Queries over a parse: their matches, and the import extraction and file
//! analysis that read them.
use vstd::prelude::*;

use crate::metrics::complexity::counters::{
    complexity_spec, count_complexity, count_loc, count_properties, count_public_methods, loc_spec,
    properties_spec, public_methods_spec,
};
use crate::metrics::complexity::fallback::Language;
use crate::metrics::complexity::lang_dispatch::{import_query, import_query_of};
use crate::metrics::complexity::ts::{
    capture_index_for_name, grammar_for, grammar_spec, parse, query_over, ts_capture_index,
    ts_matches, ts_query_compiles, Grammar, Parsed, TsQuery,
};
use crate::metrics::complexity::FileComplexity;
use crate::text::{chars_of, lines, split_lines};
use vstd::string::StringSliceAdditionalSpecFns;
use vstd::utf8::{decode_utf8, encode_utf8, valid_utf8};

verus! {

/// One capture of a query match: the capture's index in its query, the
/// captured node's byte range, and its first and last rows.
#[derive(Debug, Clone, Copy, PartialEq, Eq)]
pub struct Capture {
    pub index: u32,
    pub start_byte: usize,
    pub end_byte: usize,
    pub start_row: usize,
    pub end_row: usize,
}

// ── Trusted std call ───────────────────────────────────────────────────

/// `std::str::from_utf8`, owned: the string `b` encodes, exactly when `b`
/// is valid UTF-8.
#[verifier::external_body]
fn utf8_string(b: &[u8]) -> (r: Option<String>)
    ensures
        match r {
            Some(s) => valid_utf8(b@) && s@ == decode_utf8(b@),
            None => !valid_utf8(b@),
        },
{
    std::str::from_utf8(b).ok().map(|s| s.to_string())
}

// ── Matches ────────────────────────────────────────────────────────────

pub open spec fn capture_views(ms: Seq<Vec<Capture>>) -> Seq<Seq<Capture>> {
    ms.map_values(|m: Vec<Capture>| m@)
}

/// A capture's byte range lies within `len` bytes.
pub open spec fn capture_fits(c: Capture, len: int) -> bool {
    c.start_byte <= c.end_byte <= len
}

/// Every capture's byte range lies within `len` bytes.
pub open spec fn captures_fit(ms: Seq<Seq<Capture>>, len: int) -> bool {
    forall|j: int, k: int|
        0 <= j < ms.len() && 0 <= k < ms[j].len() ==> capture_fits(#[trigger] ms[j][k], len)
}

pub proof fn lemma_capture_fits(ms: Seq<Seq<Capture>>, len: int, j: int, k: int)
    requires
        captures_fit(ms, len),
        0 <= j < ms.len(),
        0 <= k < ms[j].len(),
    ensures
        ms[j][k].start_byte <= ms[j][k].end_byte <= len,
{
    assert(capture_fits(ms[j][k], len));
}

/// The bytes a capture covers.
pub open spec fn capture_bytes(bytes: Seq<u8>, c: Capture) -> Seq<u8> {
    bytes.subrange(c.start_byte as int, c.end_byte as int)
}

/// Do all captures lie within `len` bytes?
pub fn fits(ms: &Vec<Vec<Capture>>, len: usize) -> (r: bool)
    ensures
        r == captures_fit(capture_views(ms@), len as int),
{
    let ghost cv = capture_views(ms@);
    let mut j: usize = 0;
    while j < ms.len()
        invariant
            j <= ms@.len(),
            cv == capture_views(ms@),
            forall|a: int, k: int|
                0 <= a < j && 0 <= k < cv[a].len() ==> #[trigger] cv[a][k].start_byte
                    <= cv[a][k].end_byte <= len,
        decreases ms.len() - j,
    {
        let m = &ms[j];
        let mut k: usize = 0;
        while k < m.len()
            invariant
                j < ms@.len(),
                k <= m@.len(),
                m@ == cv[j as int],
                cv == capture_views(ms@),
                forall|a: int, q: int|
                    0 <= a < j && 0 <= q < cv[a].len() ==> #[trigger] cv[a][q].start_byte
                        <= cv[a][q].end_byte <= len,
                forall|q: int| 0 <= q < k ==> #[trigger] cv[j as int][q].start_byte <= cv[j as int][q].end_byte <= len,
            decreases m.len() - k,
        {
            if !(m[k].start_byte <= m[k].end_byte && m[k].end_byte <= len) {
                assert(!(cv[j as int][k as int].start_byte <= cv[j as int][k as int].end_byte <= len));
                return false;
            }
            k = k + 1;
        }
        j = j + 1;
    }
    true
}

/// The matches of `query_src` over a parse of `source`: the compiled query
/// (`None` where it does not compile, and then no match) and each match's
/// captures.
pub fn collect_matches(parsed: &Parsed, source: &str, query_src: &str) -> (r: (
    Option<TsQuery>,
    Vec<Vec<Capture>>,
))
    requires
        parsed@.1 == source@,
    ensures
        r.0 is Some <==> ts_query_compiles(parsed@.0, query_src@),
        r.0 matches Some(q) ==> q@ == (parsed@.0, query_src@),
        capture_views(r.1@) == matches_of(parsed@.0, query_src@, source@),
{
    let r = query_over(parsed, query_src);
    assert(r.0 is None ==> capture_views(r.1@) =~= Seq::<Seq<Capture>>::empty());
    r
}

/// The matches of a query over the parse of `text`; none where the query
/// does not compile.
pub open spec fn matches_of(g: Grammar, query: Seq<char>, text: Seq<char>) -> Seq<Seq<Capture>> {
    if ts_query_compiles(g, query) {
        ts_matches(g, query, text)
    } else {
        seq![]
    }
}

/// `n`, saturating at `u32::MAX`.
pub open spec fn saturate(n: int) -> int {
    if n <= u32::MAX {
        n
    } else {
        u32::MAX as int
    }
}

/// How many matches a query has over the parse of `text`, saturating at
/// `u32::MAX`; none where the query does not compile.
pub open spec fn query_count(g: Grammar, query: Seq<char>, text: Seq<char>) -> int {
    saturate(matches_of(g, query, text).len() as int)
}

/// The number of matches, saturating at `u32::MAX`.
pub fn match_count(ms: &Vec<Vec<Capture>>) -> (r: u32)
    ensures
        r as int == if ms@.len() <= u32::MAX {
            ms@.len() as int
        } else {
            u32::MAX as int
        },
{
    if ms.len() <= 4294967295 {
        ms.len() as u32
    } else {
        4294967295
    }
}

/// Count the matches of a query over a parse; a query that does not
/// compile matches nothing.
pub fn run_query(parsed: &Parsed, source: &str, query_src: &str) -> (r: u32)
    requires
        parsed@.1 == source@,
    ensures
        r == query_count(parsed@.0, query_src@, source@),
{
    let (_, ms) = collect_matches(parsed, source, query_src);
    match_count(&ms)
}

// ── Imports ────────────────────────────────────────────────────────────

pub open spec fn trim_char_start(s: Seq<char>, c: char) -> Seq<char>
    decreases s.len(),
{
    if s.len() > 0 && s[0] == c {
        trim_char_start(s.drop_first(), c)
    } else {
        s
    }
}

pub open spec fn trim_char_end(s: Seq<char>, c: char) -> Seq<char>
    decreases s.len(),
{
    if s.len() > 0 && s.last() == c {
        trim_char_end(s.drop_last(), c)
    } else {
        s
    }
}

/// `str::trim_matches` of one character.
pub open spec fn trim_char(s: Seq<char>, c: char) -> Seq<char> {
    trim_char_end(trim_char_start(s, c), c)
}

/// An import path as written: the captured text with surrounding double,
/// then single, quotes removed.
pub open spec fn unquoted(s: Seq<char>) -> Seq<char> {
    trim_char(trim_char(s, '"'), '\'')
}

/// The import path a capture holds, when it is valid UTF-8.
pub open spec fn capture_path(bytes: Seq<u8>, c: Capture) -> Option<Seq<char>> {
    if valid_utf8(capture_bytes(bytes, c)) {
        Some(unquoted(decode_utf8(capture_bytes(bytes, c))))
    } else {
        None
    }
}

pub open spec fn match_paths(m: Seq<Capture>, idx: u32, bytes: Seq<u8>, k: int) -> Seq<Seq<char>>
    decreases k,
{
    if k <= 0 || k > m.len() {
        seq![]
    } else {
        match_paths(m, idx, bytes, k - 1) + if m[k - 1].index == idx {
            match capture_path(bytes, m[k - 1]) {
                Some(p) => seq![p],
                None => seq![],
            }
        } else {
            seq![]
        }
    }
}

/// The paths of the `path` captures of the first `j` matches, in order.
pub open spec fn import_paths_upto(ms: Seq<Seq<Capture>>, idx: u32, bytes: Seq<u8>, j: int) -> Seq<
    Seq<char>,
>
    decreases j,
{
    if j <= 0 || j > ms.len() {
        seq![]
    } else {
        import_paths_upto(ms, idx, bytes, j - 1) + match_paths(ms[j - 1], idx, bytes, ms[j - 1].len() as int)
    }
}

pub open spec fn string_views(v: Seq<String>) -> Seq<Seq<char>> {
    v.map_values(|s: String| s@)
}

fn trim_char_exec(s: &[char], c: char) -> (r: Vec<char>)
    ensures
        r@ == trim_char(s@, c),
{
    let mut a: usize = 0;
    assert(s@.subrange(0, s@.len() as int) =~= s@);
    while a < s.len() && s[a] == c
        invariant
            a <= s.len(),
            trim_char_start(s@, c) == trim_char_start(s@.subrange(a as int, s@.len() as int), c),
        decreases s.len() - a,
    {
        proof {
            let u = s@.subrange(a as int, s@.len() as int);
            assert(u.drop_first() =~= s@.subrange(a + 1, s@.len() as int));
        }
        a = a + 1;
    }
    let ghost u = s@.subrange(a as int, s@.len() as int);
    let mut b: usize = s.len();
    assert(u.subrange(0, u.len() as int) =~= u);
    while b > a && s[b - 1] == c
        invariant
            a <= b <= s.len(),
            u == s@.subrange(a as int, s@.len() as int),
            trim_char_end(u, c) == trim_char_end(s@.subrange(a as int, b as int), c),
        decreases b,
    {
        proof {
            let w = s@.subrange(a as int, b as int);
            assert(w.drop_last() =~= s@.subrange(a as int, b - 1));
        }
        b = b - 1;
    }
    crate::text::slice_vec(s, a, b)
}

/// The bytes `b[s..e]`, copied.
pub fn bytes_between(b: &[u8], s: usize, e: usize) -> (r: Vec<u8>)
    requires
        s <= e <= b@.len(),
    ensures
        r@ == b@.subrange(s as int, e as int),
{
    let mut out: Vec<u8> = Vec::new();
    let mut i = s;
    while i < e
        invariant
            s <= i <= e <= b@.len(),
            out@ == b@.subrange(s as int, i as int),
        decreases e - i,
    {
        out.push(b[i]);
        assert(out@ =~= b@.subrange(s as int, i + 1));
        i = i + 1;
    }
    out
}

/// The import paths of the captures with index `path_idx`, match by match:
/// the UTF-8 text of each, unquoted; captures that are not UTF-8 are
/// skipped.
pub fn import_paths(ms: &Vec<Vec<Capture>>, path_idx: u32, bytes: &[u8]) -> (r: Vec<String>)
    requires
        captures_fit(capture_views(ms@), bytes@.len() as int),
    ensures
        string_views(r@) == import_paths_upto(capture_views(ms@), path_idx, bytes@, ms@.len() as int),
{
    let ghost cv = capture_views(ms@);
    let mut out: Vec<String> = Vec::new();
    let mut j: usize = 0;
    while j < ms.len()
        invariant
            j <= ms@.len(),
            cv == capture_views(ms@),
            captures_fit(cv, bytes@.len() as int),
            string_views(out@) == import_paths_upto(cv, path_idx, bytes@, j as int),
        decreases ms.len() - j,
    {
        let m = &ms[j];
        let ghost base = string_views(out@);
        let mut k: usize = 0;
        assert(base + seq![] =~= base);
        while k < m.len()
            invariant
                j < ms@.len(),
                k <= m@.len(),
                m@ == cv[j as int],
                cv == capture_views(ms@),
                captures_fit(cv, bytes@.len() as int),
                string_views(out@) == base + match_paths(m@, path_idx, bytes@, k as int),
            decreases m.len() - k,
        {
            let ghost prev = string_views(out@);
            let c = m[k];
            if c.index == path_idx {
                proof {
                    lemma_capture_fits(cv, bytes@.len() as int, j as int, k as int);
                }
                let raw = bytes_between(bytes, c.start_byte, c.end_byte);
                match utf8_string(raw.as_slice()) {
                    Some(text) => {
                        let cs = chars_of(text.as_str());
                        let once = trim_char_exec(cs.as_slice(), '"');
                        let twice = trim_char_exec(once.as_slice(), '\'');
                        let p = crate::text::string_of(twice.as_slice());
                        let ghost pv = p@;
                        out.push(p);
                        assert(string_views(out@) =~= prev.push(pv));
                    },
                    None => {},
                }
            }
            assert(string_views(out@) =~= base + match_paths(m@, path_idx, bytes@, k + 1));
            k = k + 1;
        }
        assert(string_views(out@) =~= import_paths_upto(cv, path_idx, bytes@, j + 1));
        j = j + 1;
    }
    out
}

/// The import paths a language's import query captures as `path` over
/// the parse of `text` with `g`: none without an import query, where the
/// query does not compile, or where a capture lies outside the text.
pub open spec fn imports_spec(g: Grammar, lang: Language, text: Seq<char>) -> Seq<Seq<char>> {
    match import_query_of(lang) {
        None => seq![],
        Some(q) => {
            let ms = ts_matches(g, q@, text);
            let bytes = encode_utf8(text);
            let idx = match ts_capture_index(g, q@, "path"@) {
                Some(i) => i,
                None => 0u32,
            };
            if ts_query_compiles(g, q@) && captures_fit(ms, bytes.len() as int) {
                import_paths_upto(ms, idx, bytes, ms.len() as int)
            } else {
                seq![]
            }
        },
    }
}

/// The import paths of a file: those of its parse where its language has a
/// grammar, else none.
pub open spec fn file_imports_spec(lang: Language, ext: Seq<char>, text: Seq<char>) -> Seq<Seq<char>> {
    match grammar_spec(lang, ext) {
        Some(g) => imports_spec(g, lang, text),
        None => seq![],
    }
}

/// Raw import paths of a source file: what its language's import query
/// captures as `path`. Unsupported languages yield none.
pub fn extract_imports(content: &str, lang: Language, ext: &str) -> (r: Vec<String>)
    ensures
        string_views(r@) == file_imports_spec(lang, ext@, content@),
{
    let e = chars_of(ext);
    let grammar = match grammar_for(lang, e.as_slice()) {
        Some(g) => g,
        None => {
            assert(string_views(Seq::<String>::empty()) =~= Seq::<Seq<char>>::empty());
            return Vec::new();
        },
    };
    match parse(content, grammar) {
        Some(parsed) => imports_from_tree(&parsed, content, lang, ext),
        None => Vec::new(),
    }
}

/// Tree-level core of `extract_imports`: none for a language without an
/// import query; otherwise the import paths of the query's matches, none
/// where the query does not compile or a capture lies outside the source.
pub fn imports_from_tree(parsed: &Parsed, content: &str, lang: Language, ext: &str) -> (r: Vec<String>)
    requires
        parsed@.1 == content@,
    ensures
        string_views(r@) == imports_spec(parsed@.0, lang, content@),
{
    proof {
        assert(string_views(Seq::<String>::empty()) =~= Seq::<Seq<char>>::empty());
    }
    let query_src = match import_query(lang, ext) {
        Some(q) => q,
        None => return Vec::new(),
    };
    let (query, ms) = collect_matches(parsed, content, query_src);
    let query = match query {
        Some(q) => q,
        None => return Vec::new(),
    };
    let path_idx = match capture_index_for_name(&query, "path") {
        Some(i) => i,
        None => 0,
    };
    let bytes = content.as_bytes();
    if !fits(&ms, bytes.len()) {
        return Vec::new();
    }
    import_paths(&ms, path_idx, bytes)
}

// ── Analysis ───────────────────────────────────────────────────────────

/// `m` holds the metrics of the parse of `text` with `g`: its line count,
/// lines of code, cyclomatic complexity, public methods and properties.
pub open spec fn metrics_are(m: FileComplexity, g: Grammar, lang: Language, ext: Seq<char>, text: Seq<char>) -> bool {
    &&& m.total_lines == lines(text).len()
    &&& m.loc == loc_spec(g, lang, text)
    &&& m.cyclomatic_complexity == complexity_spec(g, lang, text)
    &&& m.public_methods == public_methods_spec(g, lang, ext, text)
    &&& m.properties == properties_spec(g, lang, ext, text)
}

/// The metrics of a parse of `content`: its line count, and what the
/// language's queries count.
pub fn analyse_tree(parsed: &Parsed, content: &str, lang: Language, ext: &str) -> (r: FileComplexity)
    requires
        parsed@.1 == content@,
    ensures
        metrics_are(r, parsed@.0, lang, ext@, content@),
        r.loc <= r.total_lines,
{
    let text = chars_of(content);
    let total_lines = split_lines(text.as_slice()).len();
    let loc = count_loc(content, parsed, lang, ext);
    let cyclomatic_complexity = count_complexity(parsed, content, lang, ext);
    let public_methods = count_public_methods(parsed, content, lang, ext);
    let properties = count_properties(parsed, content, lang, ext);
    FileComplexity { total_lines, loc, cyclomatic_complexity, public_methods, properties }
}

/// Analyse source content with its parse: `None` exactly for languages
/// without a grammar; otherwise the metrics of the parse.
pub fn analyse(content: &str, lang: Language, ext: &str) -> (r: Option<FileComplexity>)
    ensures
        r is None <==> grammar_spec(lang, ext@) is None,
        grammar_spec(lang, ext@) matches Some(g) ==> (r matches Some(m) && metrics_are(
            m,
            g,
            lang,
            ext@,
            content@,
        )),
        r matches Some(m) ==> m.loc <= m.total_lines,
{
    let e = chars_of(ext);
    let grammar = match grammar_for(lang, e.as_slice()) {
        Some(g) => g,
        None => return None,
    };
    match parse(content, grammar) {
        Some(parsed) => Some(analyse_tree(&parsed, content, lang, ext)),
        None => None,
    }
}

} // verus!
