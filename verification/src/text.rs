//! Character-sequence primitives shared by every analysis: prefix, suffix
//! and substring tests, trimming, line splitting, match counting and
//! decimal rendering. Each one is specified over `Seq<char>`, the view of
//! `str` and `String`.
use vstd::prelude::*;
use vstd::string::StringSliceAdditionalSpecFns;

verus! {

// ── Specifications ─────────────────────────────────────────────────────

/// `p` occurs in `s` starting at position `i`.
pub open spec fn occurs_at(s: Seq<char>, p: Seq<char>, i: int) -> bool {
    &&& 0 <= i
    &&& i + p.len() <= s.len()
    &&& s.subrange(i, i + p.len()) == p
}

pub open spec fn is_prefix(s: Seq<char>, p: Seq<char>) -> bool {
    occurs_at(s, p, 0)
}

pub open spec fn is_suffix(s: Seq<char>, p: Seq<char>) -> bool {
    p.len() <= s.len() && occurs_at(s, p, s.len() - p.len())
}

pub open spec fn contains_seq(s: Seq<char>, p: Seq<char>) -> bool {
    exists|i: int| occurs_at(s, p, i)
}

/// `p` occurs somewhere in `s` at or after position `from`.
pub open spec fn occurs_from(s: Seq<char>, p: Seq<char>, from: int) -> bool {
    exists|i: int| from <= i && occurs_at(s, p, i)
}

/// The characters for which `char::is_whitespace` holds: Unicode's
/// `White_Space` property.
pub open spec fn is_ws(c: char) -> bool {
    ||| ('\u{9}' <= c && c <= '\u{d}')
    ||| c == ' '
    ||| c == '\u{85}'
    ||| c == '\u{a0}'
    ||| c == '\u{1680}'
    ||| ('\u{2000}' <= c && c <= '\u{200a}')
    ||| c == '\u{2028}'
    ||| c == '\u{2029}'
    ||| c == '\u{202f}'
    ||| c == '\u{205f}'
    ||| c == '\u{3000}'
}

pub open spec fn trim_start(s: Seq<char>) -> Seq<char>
    decreases s.len(),
{
    if s.len() > 0 && is_ws(s[0]) {
        trim_start(s.drop_first())
    } else {
        s
    }
}

pub open spec fn trim_end(s: Seq<char>) -> Seq<char>
    decreases s.len(),
{
    if s.len() > 0 && is_ws(s.last()) {
        trim_end(s.drop_last())
    } else {
        s
    }
}

/// `str::trim`: leading and trailing whitespace removed.
pub open spec fn trim(s: Seq<char>) -> Seq<char> {
    trim_end(trim_start(s))
}

/// First position at or after `i` that holds a newline, or `s.len()`.
pub open spec fn line_end(s: Seq<char>, i: int) -> int
    decreases s.len() - i,
{
    if i >= s.len() {
        s.len() as int
    } else if s[i] == '\n' {
        i
    } else {
        line_end(s, i + 1)
    }
}

/// One line as `str::lines` yields it: a `\r` directly before the
/// terminating `\n` is dropped.
pub open spec fn strip_cr(line: Seq<char>, terminated: bool) -> Seq<char> {
    if terminated && line.len() > 0 && line.last() == '\r' {
        line.drop_last()
    } else {
        line
    }
}

/// `str::lines` on the suffix of `s` that starts at `i`.
pub open spec fn lines_from(s: Seq<char>, i: int) -> Seq<Seq<char>>
    decreases s.len() - i,
{
    if i < 0 || i >= s.len() {
        seq![]
    } else {
        let e = line_end(s, i);
        proof {
            lemma_line_end_bounds(s, i);
        }
        let line = strip_cr(s.subrange(i, e), e < s.len());
        if e >= s.len() {
            seq![line]
        } else {
            seq![line] + lines_from(s, e + 1)
        }
    }
}

/// `str::lines`: the lines of `s`, without terminators.
pub open spec fn lines(s: Seq<char>) -> Seq<Seq<char>> {
    lines_from(s, 0)
}

/// Number of non-overlapping occurrences of `p` in `s` at or after `i`,
/// found left to right (`str::matches(..).count()`).
pub open spec fn count_from(s: Seq<char>, p: Seq<char>, i: int) -> nat
    decreases s.len() - i,
{
    if p.len() == 0 || i < 0 || i + p.len() > s.len() {
        0
    } else if occurs_at(s, p, i) {
        1 + count_from(s, p, i + p.len())
    } else {
        count_from(s, p, i + 1)
    }
}

pub open spec fn count_matches(s: Seq<char>, p: Seq<char>) -> nat {
    count_from(s, p, 0)
}

pub open spec fn digit_char(d: int) -> char {
    if d == 0 { '0' }
    else if d == 1 { '1' }
    else if d == 2 { '2' }
    else if d == 3 { '3' }
    else if d == 4 { '4' }
    else if d == 5 { '5' }
    else if d == 6 { '6' }
    else if d == 7 { '7' }
    else if d == 8 { '8' }
    else { '9' }
}

/// Decimal digits of a natural number, most significant first.
pub open spec fn digits(n: nat) -> Seq<char>
    decreases n,
{
    if n < 10 {
        seq![digit_char(n as int)]
    } else {
        digits(n / 10).push(digit_char((n % 10) as int))
    }
}

/// The `Display` rendering of an integer.
pub open spec fn decimal(n: int) -> Seq<char> {
    if n < 0 {
        seq!['-'] + digits((-n) as nat)
    } else {
        digits(n as nat)
    }
}

/// `lines` joined with `sep` between consecutive elements (`[T]::join`).
pub open spec fn join(parts: Seq<Seq<char>>, sep: Seq<char>) -> Seq<char>
    decreases parts.len(),
{
    if parts.len() == 0 {
        seq![]
    } else if parts.len() == 1 {
        parts[0]
    } else {
        join(parts.drop_last(), sep) + sep + parts.last()
    }
}

/// Name for what `char::is_alphanumeric` returns (Unicode `Alphabetic`
/// or `Numeric`).
pub uninterp spec fn unicode_alphanumeric(c: char) -> bool;

/// Name for what `char::is_uppercase` returns (Unicode `Uppercase`).
pub uninterp spec fn unicode_uppercase(c: char) -> bool;

pub open spec fn is_ascii_alphanumeric(c: char) -> bool {
    ('0' <= c && c <= '9') || ('a' <= c && c <= 'z') || ('A' <= c && c <= 'Z')
}

/// Characters that may continue an identifier: `char::is_alphanumeric` or `_`.
pub open spec fn is_ident_char(c: char) -> bool {
    unicode_alphanumeric(c) || c == '_'
}

/// Three-way lexicographic comparison of `a[i..]` and `b[i..]`
/// (-1, 0 or 1), the order of `str`'s `Ord`.
pub open spec fn order_from(a: Seq<char>, b: Seq<char>, i: int) -> int
    decreases a.len() + b.len() - 2 * i,
{
    if i < 0 || (i >= a.len() && i >= b.len()) {
        0
    } else if i >= a.len() {
        -1
    } else if i >= b.len() {
        1
    } else if a[i] < b[i] {
        -1
    } else if a[i] > b[i] {
        1
    } else {
        order_from(a, b, i + 1)
    }
}

pub open spec fn order_of(a: Seq<char>, b: Seq<char>) -> int {
    order_from(a, b, 0)
}

pub open spec fn lt_seq(a: Seq<char>, b: Seq<char>) -> bool {
    order_of(a, b) < 0
}

/// `Path::join` on Unix: an absolute `rel` replaces `base`; otherwise `rel`
/// is appended with one `/` separator where `base` does not end in one.
pub open spec fn path_join(base: Seq<char>, rel: Seq<char>) -> Seq<char> {
    if rel.len() > 0 && rel[0] == '/' {
        rel
    } else if base.len() == 0 {
        rel
    } else if base.last() == '/' {
        base + rel
    } else {
        base + "/"@ + rel
    }
}

/// Name for what `format!("{:?}", s)` returns for a string slice: the
/// quoted, escaped `Debug` rendering.
pub uninterp spec fn debug_form(s: Seq<char>) -> Seq<char>;

/// Whether `pred` holds at one of the occurrences of `w` that a
/// left-to-right, non-overlapping search from `i` finds
/// (`str::match_indices(..).any(..)`).
pub open spec fn scan_any(hay: Seq<char>, w: Seq<char>, i: int, pred: spec_fn(int) -> bool) -> bool
    decreases hay.len() + 1 - i,
{
    if i < 0 || i > hay.len() {
        false
    } else if occurs_at(hay, w, i) {
        pred(i) || scan_any(hay, w, i + if w.len() == 0 { 1 } else { w.len() as int }, pred)
    } else {
        scan_any(hay, w, i + 1, pred)
    }
}

/// An occurrence at `i` of a word of length `wl` that stands alone: no
/// identifier character or `.` before it, no identifier character after.
pub open spec fn word_at(hay: Seq<char>, wl: int, i: int) -> bool {
    &&& (i == 0 || !(is_ident_char(hay[i - 1]) || hay[i - 1] == '.'))
    &&& (i + wl >= hay.len() || !is_ident_char(hay[i + wl]))
}

/// An occurrence at `i` with no identifier character immediately before it.
pub open spec fn left_bounded_at(hay: Seq<char>, i: int) -> bool {
    i == 0 || !is_ident_char(hay[i - 1])
}

/// `word` occurs in `hay` as a standalone identifier that is not a field
/// access.
pub open spec fn contains_word(hay: Seq<char>, word: Seq<char>) -> bool {
    scan_any(hay, word, 0, |i: int| word_at(hay, word.len() as int, i))
}

/// `marker` occurs in `hay` with no identifier character right before it.
pub open spec fn contains_left_bounded(hay: Seq<char>, marker: Seq<char>) -> bool {
    scan_any(hay, marker, 0, |i: int| left_bounded_at(hay, i))
}

/// At most the first `n` characters.
pub open spec fn take_chars(s: Seq<char>, n: int) -> Seq<char> {
    if n < s.len() {
        s.take(n)
    } else {
        s
    }
}

/// The first line of `s`, or nothing.
pub open spec fn first_line(s: Seq<char>) -> Seq<char> {
    if lines(s).len() > 0 {
        lines(s)[0]
    } else {
        seq![]
    }
}

/// `s` without its whitespace characters.
pub open spec fn without_ws(s: Seq<char>) -> Seq<char>
    decreases s.len(),
{
    if s.len() == 0 {
        seq![]
    } else {
        without_ws(s.drop_last()) + if is_ws(s.last()) {
            seq![]
        } else {
            seq![s.last()]
        }
    }
}

// ── Trusted std calls ──────────────────────────────────────────────────

/// `String::from_iter` over a slice of characters: the string whose
/// characters are exactly `cs`, in order.
#[verifier::external_body]
pub(crate) fn string_of(cs: &[char]) -> (s: String)
    ensures
        s@ == cs@,
{
    String::from_iter(cs.iter())
}

/// `char::is_alphanumeric`. The result is named; for ASCII characters the
/// standard library documents it as the digits and the Latin letters.
#[verifier::external_body]
pub(crate) fn is_alphanumeric(c: char) -> (r: bool)
    ensures
        r == unicode_alphanumeric(c),
        (c as u32) < 128 ==> (r <==> is_ascii_alphanumeric(c)),
{
    c.is_alphanumeric()
}

/// `char::is_uppercase`. The result is named; for ASCII characters the
/// standard library documents it as `A` to `Z`.
#[verifier::external_body]
pub(crate) fn is_uppercase(c: char) -> (r: bool)
    ensures
        r == unicode_uppercase(c),
        (c as u32) < 128 ==> (r <==> ('A' <= c && c <= 'Z')),
{
    c.is_uppercase()
}

/// Printable ASCII other than the double quote and the backslash: the
/// characters that `Debug` for `str` (`char::escape_debug`) leaves as they
/// are.
pub open spec fn plain_text(s: Seq<char>) -> bool {
    forall|i: int| 0 <= i < s.len() ==> ' ' <= #[trigger] s[i] <= '~' && s[i] != '"' && s[i] != '\\'
}

/// `format!("{:?}", s)`: the `Debug` rendering of a string slice. Text of
/// plain characters only comes out unchanged between double quotes.
#[verifier::external_body]
pub(crate) fn debug_str(s: &str) -> (r: String)
    ensures
        r@ == debug_form(s@),
        plain_text(s@) ==> r@ == seq!['"'] + s@ + seq!['"'],
{
    format!("{s:?}")
}

// ── Executable counterparts ────────────────────────────────────────────

/// The characters of `s`, in order.
pub fn chars_of(s: &str) -> (out: Vec<char>)
    ensures
        out@ == s@,
{
    let mut out: Vec<char> = Vec::new();
    for c in it: s.chars()
        invariant
            out@ == it.seq().take(it.index() as int),
            it.seq() == s@,
    {
        out.push(c);
    }
    out
}

pub fn is_whitespace(c: char) -> (r: bool)
    ensures
        r == is_ws(c),
{
    ('\u{9}' <= c && c <= '\u{d}') || c == ' ' || c == '\u{85}' || c == '\u{a0}' || c
        == '\u{1680}' || ('\u{2000}' <= c && c <= '\u{200a}') || c == '\u{2028}' || c
        == '\u{2029}' || c == '\u{202f}' || c == '\u{205f}' || c == '\u{3000}'
}

/// Two string slices are equal exactly when they hold the same characters
/// (compared through their UTF-8 bytes, which encode the characters one to
/// one).
pub(crate) fn str_eq(a: &str, b: &str) -> (r: bool)
    ensures
        r == (a@ == b@),
{
    let x = a.as_bytes();
    let y = b.as_bytes();
    proof {
        vstd::utf8::encode_utf8_decode_utf8(a@);
        vstd::utf8::encode_utf8_decode_utf8(b@);
    }
    if x.len() != y.len() {
        return false;
    }
    let mut i: usize = 0;
    while i < x.len()
        invariant
            x@.len() == y@.len(),
            x@ == a.spec_bytes(),
            y@ == b.spec_bytes(),
            i <= x@.len(),
            forall|j: int| 0 <= j < i ==> x@[j] == y@[j],
        decreases x@.len() - i,
    {
        if x[i] != y[i] {
            return false;
        }
        i = i + 1;
    }
    assert(x@ =~= y@);
    true
}

/// `c` continues an identifier (alphanumeric or `_`).
pub fn ident_char(c: char) -> (r: bool)
    ensures
        r == is_ident_char(c),
{
    c == '_' || is_alphanumeric(c)
}

pub fn occurs_at_exec(s: &[char], p: &[char], i: usize) -> (r: bool)
    ensures
        r == occurs_at(s@, p@, i as int),
{
    if i > s.len() || p.len() > s.len() - i {
        return false;
    }
    let mut k: usize = 0;
    while k < p.len()
        invariant
            i + p.len() <= s.len(),
            k <= p.len(),
            forall|j: int| 0 <= j < k ==> s@[i + j] == p@[j],
        decreases p.len() - k,
    {
        if s[i + k] != p[k] {
            assert(s@.subrange(i as int, i + p.len())[k as int] != p@[k as int]);
            return false;
        }
        k = k + 1;
    }
    assert(s@.subrange(i as int, i + p.len()) =~= p@);
    true
}

pub fn starts_with(s: &[char], p: &[char]) -> (r: bool)
    ensures
        r == is_prefix(s@, p@),
{
    occurs_at_exec(s, p, 0)
}

/// `starts_with` against a string literal or other `&str`.
pub fn starts_with_str(s: &[char], p: &str) -> (r: bool)
    ensures
        r == is_prefix(s@, p@),
{
    let pc = chars_of(p);
    starts_with(s, pc.as_slice())
}

pub fn ends_with(s: &[char], p: &[char]) -> (r: bool)
    ensures
        r == is_suffix(s@, p@),
{
    if p.len() > s.len() {
        false
    } else {
        occurs_at_exec(s, p, s.len() - p.len())
    }
}

pub fn ends_with_str(s: &[char], p: &str) -> (r: bool)
    ensures
        r == is_suffix(s@, p@),
{
    let pc = chars_of(p);
    ends_with(s, pc.as_slice())
}

/// First occurrence of `p` in `s` at or after `from`.
pub fn find_from(s: &[char], p: &[char], from: usize) -> (r: Option<usize>)
    ensures
        r matches Some(i) ==> from <= i && occurs_at(s@, p@, i as int) && forall|j: int|
            from <= j < i ==> !occurs_at(s@, p@, j),
        r is None ==> !occurs_from(s@, p@, from as int),
{
    if p.len() == 0 {
        if from <= s.len() {
            assert(s@.subrange(from as int, from as int) =~= p@);
            return Some(from);
        }
        return None;
    }
    if p.len() > s.len() {
        return None;
    }
    let mut i = from;
    while i <= s.len() - p.len()
        invariant
            from <= i,
            1 <= p.len() <= s.len(),
            forall|j: int| from <= j < i ==> !occurs_at(s@, p@, j),
        decreases s.len() - i,
    {
        if occurs_at_exec(s, p, i) {
            return Some(i);
        }
        i = i + 1;
    }
    None
}

pub fn contains(s: &[char], p: &[char]) -> (r: bool)
    ensures
        r == contains_seq(s@, p@),
{
    match find_from(s, p, 0) {
        Some(i) => true,
        None => {
            assert forall|i: int| !occurs_at(s@, p@, i) by {
                if occurs_at(s@, p@, i) {
                    assert(0 <= i);
                }
            }
            false
        },
    }
}

pub fn contains_str(s: &[char], p: &str) -> (r: bool)
    ensures
        r == contains_seq(s@, p@),
{
    let pc = chars_of(p);
    contains(s, pc.as_slice())
}

/// `s` holds the character `c`.
pub fn contains_char(s: &[char], c: char) -> (r: bool)
    ensures
        r == s@.contains(c),
{
    let mut i: usize = 0;
    while i < s.len()
        invariant
            i <= s.len(),
            forall|j: int| 0 <= j < i ==> s@[j] != c,
        decreases s.len() - i,
    {
        if s[i] == c {
            return true;
        }
        i = i + 1;
    }
    false
}

/// Two character sequences are equal.
pub fn chars_eq(a: &[char], b: &[char]) -> (r: bool)
    ensures
        r == (a@ == b@),
{
    if a.len() != b.len() {
        return false;
    }
    assert(a@.subrange(0, a@.len() as int) =~= a@);
    occurs_at_exec(a, b, 0)
}

pub fn chars_eq_str(a: &[char], b: &str) -> (r: bool)
    ensures
        r == (a@ == b@),
{
    let bc = chars_of(b);
    chars_eq(a, bc.as_slice())
}

/// A copy of `s[from..to]`.
pub fn slice_vec(s: &[char], from: usize, to: usize) -> (out: Vec<char>)
    requires
        from <= to <= s.len(),
    ensures
        out@ == s@.subrange(from as int, to as int),
{
    let mut out: Vec<char> = Vec::new();
    let mut i = from;
    while i < to
        invariant
            from <= i <= to <= s.len(),
            out@ == s@.subrange(from as int, i as int),
        decreases to - i,
    {
        out.push(s[i]);
        i = i + 1;
        assert(out@ =~= s@.subrange(from as int, i as int));
    }
    out
}

/// Append every character of `extra` to `out`.
pub fn push_all(out: &mut Vec<char>, extra: &[char])
    ensures
        final(out)@ == old(out)@ + extra@,
{
    let mut i: usize = 0;
    while i < extra.len()
        invariant
            i <= extra.len(),
            out@ == old(out)@ + extra@.subrange(0, i as int),
        decreases extra.len() - i,
    {
        out.push(extra[i]);
        i = i + 1;
        assert(out@ =~= old(out)@ + extra@.subrange(0, i as int));
    }
    assert(extra@.subrange(0, extra@.len() as int) =~= extra@);
}

pub fn push_str(out: &mut Vec<char>, extra: &str)
    ensures
        final(out)@ == old(out)@ + extra@,
{
    let ec = chars_of(extra);
    push_all(out, ec.as_slice());
}

proof fn lemma_trim_start_step(s: Seq<char>, a: int)
    requires
        0 <= a < s.len(),
        is_ws(s[a]),
    ensures
        trim_start(s.subrange(a, s.len() as int)) == trim_start(s.subrange(a + 1, s.len() as int)),
{
    assert(s.subrange(a, s.len() as int).drop_first() =~= s.subrange(a + 1, s.len() as int));
}

/// Bounds `(a, b)` such that `s[a..b]` is `trim(s)`.
pub fn trim_bounds(s: &[char]) -> (r: (usize, usize))
    ensures
        r.0 <= r.1 <= s.len(),
        s@.subrange(r.0 as int, r.1 as int) == trim(s@),
{
    let mut a: usize = 0;
    assert(s@.subrange(0, s@.len() as int) =~= s@);
    while a < s.len() && is_whitespace(s[a])
        invariant
            a <= s.len(),
            trim_start(s@) == trim_start(s@.subrange(a as int, s@.len() as int)),
        decreases s.len() - a,
    {
        proof {
            lemma_trim_start_step(s@, a as int);
        }
        a = a + 1;
    }
    let ghost t = s@.subrange(a as int, s@.len() as int);
    assert(trim_start(s@) == t);
    let mut b: usize = s.len();
    assert(t.subrange(0, t.len() as int) =~= t);
    while b > a && is_whitespace(s[b - 1])
        invariant
            a <= b <= s.len(),
            t == s@.subrange(a as int, s@.len() as int),
            trim_end(t) == trim_end(s@.subrange(a as int, b as int)),
        decreases b,
    {
        proof {
            let u = s@.subrange(a as int, b as int);
            assert(u.drop_last() =~= s@.subrange(a as int, b - 1));
        }
        b = b - 1;
    }
    (a, b)
}

/// `str::trim`, as a copy.
pub fn trimmed(s: &[char]) -> (out: Vec<char>)
    ensures
        out@ == trim(s@),
{
    let (a, b) = trim_bounds(s);
    slice_vec(s, a, b)
}

pub proof fn lemma_line_end_bounds(s: Seq<char>, i: int)
    requires
        0 <= i <= s.len(),
    ensures
        i <= line_end(s, i) <= s.len(),
        line_end(s, i) < s.len() ==> s[line_end(s, i)] == '\n',
        forall|j: int| i <= j < line_end(s, i) ==> s[j] != '\n',
    decreases s.len() - i,
{
    if i < s.len() && s[i] != '\n' {
        lemma_line_end_bounds(s, i + 1);
    }
}

proof fn lemma_line_end_skip(s: Seq<char>, i: int, k: int)
    requires
        0 <= i <= k <= s.len(),
        forall|j: int| i <= j < k ==> s[j] != '\n',
    ensures
        line_end(s, i) == line_end(s, k),
    decreases k - i,
{
    if i < k {
        lemma_line_end_skip(s, i + 1, k);
    }
}

/// `str::lines`: every line of `s`, without its terminator.
pub fn split_lines(s: &[char]) -> (out: Vec<Vec<char>>)
    ensures
        out@.len() == lines(s@).len(),
        forall|k: int| 0 <= k < out@.len() ==> #[trigger] out@[k]@ == lines(s@)[k],
{
    let mut out: Vec<Vec<char>> = Vec::new();
    let mut i: usize = 0;
    let ghost done: Seq<Seq<char>> = seq![];
    while i < s.len()
        invariant
            i <= s.len(),
            out@.len() == done.len(),
            forall|k: int| 0 <= k < out@.len() ==> #[trigger] out@[k]@ == done[k],
            done + lines_from(s@, i as int) == lines(s@),
        decreases s.len() - i,
    {
        let mut e = i;
        while e < s.len() && s[e] != '\n'
            invariant
                i <= e <= s.len(),
                forall|j: int| i <= j < e ==> s@[j] != '\n',
            decreases s.len() - e,
        {
            e = e + 1;
        }
        proof {
            lemma_line_end_skip(s@, i as int, e as int);
            assert(line_end(s@, i as int) == e);
        }
        let terminated = e < s.len();
        let mut stop = e;
        if terminated && e > i && s[e - 1] == '\r' {
            stop = e - 1;
        }
        let line = slice_vec(s, i, stop);
        proof {
            let raw = s@.subrange(i as int, e as int);
            if terminated && e > i && s@[e - 1] == '\r' {
                assert(raw.drop_last() =~= s@.subrange(i as int, stop as int));
            }
            assert(line@ == strip_cr(raw, e < s.len()));
        }
        let ghost line_seq = line@;
        out.push(line);
        proof {
            let rest = if e >= s.len() { seq![] } else { lines_from(s@, e + 1) };
            assert(lines_from(s@, i as int) == seq![line_seq] + rest);
            done = done.push(line_seq);
            assert(done + rest =~= (done.drop_last() + seq![line_seq]) + rest);
            if e >= s.len() {
                assert(lines_from(s@, s@.len() as int) == Seq::<Seq<char>>::empty());
                assert(done + lines_from(s@, s@.len() as int) =~= done);
            }
        }
        if terminated {
            i = e + 1;
        } else {
            i = e;
        }
    }
    proof {
        assert(lines_from(s@, i as int) == Seq::<Seq<char>>::empty());
        assert(done + lines_from(s@, i as int) =~= done);
    }
    out
}

/// `s.matches(p).count()` for a non-empty pattern.
pub fn count_occurrences(s: &[char], p: &[char]) -> (n: usize)
    requires
        p.len() > 0,
    ensures
        n == count_matches(s@, p@),
{
    let mut n: usize = 0;
    let mut i: usize = 0;
    while p.len() <= s.len() - i
        invariant
            p.len() > 0,
            i <= s.len(),
            n <= i,
            n + count_from(s@, p@, i as int) == count_matches(s@, p@),
        decreases s.len() - i,
    {
        if occurs_at_exec(s, p, i) {
            n = n + 1;
            i = i + p.len();
        } else {
            i = i + 1;
        }
    }
    n
}

pub fn digit_of(d: u64) -> (c: char)
    requires
        d < 10,
    ensures
        c == digit_char(d as int),
{
    if d == 0 { '0' }
    else if d == 1 { '1' }
    else if d == 2 { '2' }
    else if d == 3 { '3' }
    else if d == 4 { '4' }
    else if d == 5 { '5' }
    else if d == 6 { '6' }
    else if d == 7 { '7' }
    else if d == 8 { '8' }
    else { '9' }
}

/// Three-way comparison of two strings in `str`'s order, as -1, 0 or 1.
pub fn compare_chars(a: &[char], b: &[char]) -> (r: i8)
    ensures
        r as int == order_of(a@, b@),
{
    let mut i: usize = 0;
    while i < a.len() && i < b.len() && a[i] == b[i]
        invariant
            i <= a.len(),
            i <= b.len(),
            order_from(a@, b@, i as int) == order_of(a@, b@),
        decreases a.len() - i,
    {
        i = i + 1;
    }
    if i >= a.len() && i >= b.len() {
        0
    } else if i >= a.len() {
        -1
    } else if i >= b.len() {
        1
    } else if a[i] < b[i] {
        -1
    } else {
        1
    }
}

/// Three-way comparison of two `String`s in `str`'s order, as -1, 0 or 1.
pub fn compare_strings(a: &String, b: &String) -> (r: i8)
    ensures
        r as int == order_of(a@, b@),
{
    let ac = chars_of(a.as_str());
    let bc = chars_of(b.as_str());
    compare_chars(ac.as_slice(), bc.as_slice())
}

spec fn tail_from(a: Seq<char>, i: int) -> Seq<char> {
    if i < a.len() { a.subrange(i, a.len() as int) } else { seq![] }
}

proof fn lemma_order_from_eq(a: Seq<char>, b: Seq<char>, i: int)
    requires
        0 <= i,
    ensures
        order_from(a, b, i) == 0 <==> tail_from(a, i) =~= tail_from(b, i),
    decreases a.len() + b.len() - 2 * i,
{
    if i >= a.len() && i >= b.len() {
    } else if i >= a.len() {
        assert(tail_from(b, i).len() > 0);
    } else if i >= b.len() {
        assert(tail_from(a, i).len() > 0);
    } else if a[i] != b[i] {
        assert(tail_from(a, i)[0] != tail_from(b, i)[0]);
    } else {
        lemma_order_from_eq(a, b, i + 1);
        let sa = tail_from(a, i);
        let sb = tail_from(b, i);
        assert(sa.drop_first() =~= tail_from(a, i + 1));
        assert(sb.drop_first() =~= tail_from(b, i + 1));
        if sa =~= sb {
            assert(sa.drop_first() =~= sb.drop_first());
        }
        if sa.drop_first() =~= sb.drop_first() {
            assert(sa.len() == sb.len());
            assert forall|k: int| 0 <= k < sa.len() implies sa[k] == sb[k] by {
                if k > 0 {
                    assert(sa[k] == sa.drop_first()[k - 1]);
                    assert(sb[k] == sb.drop_first()[k - 1]);
                }
            }
            assert(sa =~= sb);
        }
    }
}

/// Equal strings, and only those, compare as 0.
pub proof fn lemma_order_zero_iff_eq(a: Seq<char>, b: Seq<char>)
    ensures
        order_of(a, b) == 0 <==> a == b,
{
    lemma_order_from_eq(a, b, 0);
    assert(tail_from(a, 0) =~= a);
    assert(tail_from(b, 0) =~= b);
}

proof fn lemma_order_from_antisym(a: Seq<char>, b: Seq<char>, i: int)
    ensures
        order_from(a, b, i) == -order_from(b, a, i),
    decreases a.len() + b.len() - 2 * i,
{
    if i < 0 || (i >= a.len() && i >= b.len()) {
    } else if i >= a.len() || i >= b.len() || a[i] != b[i] {
    } else {
        lemma_order_from_antisym(a, b, i + 1);
    }
}

/// Swapping the operands negates the comparison.
pub proof fn lemma_order_antisym(a: Seq<char>, b: Seq<char>)
    ensures
        order_of(a, b) == -order_of(b, a),
{
    lemma_order_from_antisym(a, b, 0);
}

proof fn lemma_order_from_trans(a: Seq<char>, b: Seq<char>, c: Seq<char>, i: int)
    requires
        order_from(a, b, i) < 0,
        order_from(b, c, i) < 0,
    ensures
        order_from(a, c, i) < 0,
    decreases a.len() + b.len() - 2 * i,
{
    if i >= a.len() || i >= b.len() || i >= c.len() {
    } else if a[i] == b[i] && b[i] == c[i] {
        lemma_order_from_trans(a, b, c, i + 1);
    }
}

/// The order is transitive.
pub proof fn lemma_order_trans(a: Seq<char>, b: Seq<char>, c: Seq<char>)
    requires
        lt_seq(a, b),
        lt_seq(b, c),
    ensures
        lt_seq(a, c),
{
    lemma_order_from_trans(a, b, c, 0);
}

/// `Path::new(base).join(rel)`, as a string.
pub fn join_path(base: &str, rel: &[char]) -> (out: String)
    ensures
        out@ == path_join(base@, rel@),
{
    let b = chars_of(base);
    if rel.len() > 0 && rel[0] == '/' {
        return string_of(rel);
    }
    if b.len() == 0 {
        return string_of(rel);
    }
    let mut acc = b;
    if acc[acc.len() - 1] != '/' {
        acc.push('/');
    }
    push_all(&mut acc, rel);
    proof {
        if b@.last() != '/' {
            assert(acc@ =~= b@ + "/"@ + rel@) by {
                reveal_strlit("/");
            }
        }
    }
    string_of(acc.as_slice())
}

/// Does `word` occur in `hay` as a standalone, non-field identifier?
pub fn contains_word_exec(hay: &[char], word: &[char]) -> (r: bool)
    ensures
        r == contains_word(hay@, word@),
{
    let ghost pred = |i: int| word_at(hay@, word@.len() as int, i);
    let mut i: usize = 0;
    while i < hay.len()
        invariant
            i <= hay@.len(),
            scan_any(hay@, word@, 0, pred) == scan_any(hay@, word@, i as int, pred),
            pred == |i: int| word_at(hay@, word@.len() as int, i),
        decreases hay.len() + 1 - i,
    {
        if occurs_at_exec(hay, word, i) {
            let before_ok = i == 0 || !(ident_char(hay[i - 1]) || hay[i - 1] == '.');
            let after_ok = i + word.len() >= hay.len() || !ident_char(hay[i + word.len()]);
            if before_ok && after_ok {
                return true;
            }
            i = i + if word.len() == 0 { 1 } else { word.len() };
        } else {
            i = i + 1;
        }
    }
    assert(!scan_any(hay@, word@, i + 1, pred));
    assert(!scan_any(hay@, word@, i + 1 + word@.len(), pred));
    if occurs_at_exec(hay, word, i) {
        let before_ok = i == 0 || !(ident_char(hay[i - 1]) || hay[i - 1] == '.');
        return before_ok;
    }
    false
}

/// Does `marker` occur in `hay` with no identifier character before it?
pub fn contains_left_bounded_exec(hay: &[char], marker: &[char]) -> (r: bool)
    ensures
        r == contains_left_bounded(hay@, marker@),
{
    let ghost pred = |i: int| left_bounded_at(hay@, i);
    let mut i: usize = 0;
    while i < hay.len()
        invariant
            i <= hay@.len(),
            scan_any(hay@, marker@, 0, pred) == scan_any(hay@, marker@, i as int, pred),
            pred == |i: int| left_bounded_at(hay@, i),
        decreases hay.len() + 1 - i,
    {
        if occurs_at_exec(hay, marker, i) {
            if i == 0 || !ident_char(hay[i - 1]) {
                return true;
            }
            i = i + if marker.len() == 0 { 1 } else { marker.len() };
        } else {
            i = i + 1;
        }
    }
    assert(!scan_any(hay@, marker@, i + 1, pred));
    assert(!scan_any(hay@, marker@, i + 1 + marker@.len(), pred));
    if occurs_at_exec(hay, marker, i) {
        return i == 0 || !ident_char(hay[i - 1]);
    }
    false
}

/// `s` with whitespace removed.
pub fn strip_ws(s: &[char]) -> (out: Vec<char>)
    ensures
        out@ == without_ws(s@),
{
    let mut out: Vec<char> = Vec::new();
    let mut i: usize = 0;
    while i < s.len()
        invariant
            i <= s@.len(),
            out@ == without_ws(s@.take(i as int)),
        decreases s.len() - i,
    {
        if !is_whitespace(s[i]) {
            out.push(s[i]);
        }
        proof {
            let t = s@.take(i + 1);
            assert(t.drop_last() =~= s@.take(i as int));
        }
        i = i + 1;
    }
    assert(s@.take(s@.len() as int) =~= s@);
    out
}

/// The evidence line of a finding: the node text's first line, trimmed,
/// cut to 120 characters.
pub fn evidence_of(s: &[char]) -> (out: Vec<char>)
    ensures
        out@ == take_chars(trim(first_line(s@)), 120),
{
    let ls = split_lines(s);
    let first: Vec<char> = if ls.len() > 0 {
        trimmed(ls[0].as_slice())
    } else {
        Vec::new()
    };
    proof {
        if ls@.len() == 0 {
            assert(trim(Seq::<char>::empty()) =~= Seq::<char>::empty()) by {
                assert(trim_start(Seq::<char>::empty()) == Seq::<char>::empty());
            }
        }
    }
    if first.len() > 120 {
        slice_vec(first.as_slice(), 0, 120)
    } else {
        first
    }
}

/// Decimal digits of `n`.
pub fn digits_of(n: u64) -> (out: Vec<char>)
    ensures
        out@ == digits(n as nat),
    decreases n,
{
    if n < 10 {
        let mut out = Vec::new();
        out.push(digit_of(n));
        out
    } else {
        let mut out = digits_of(n / 10);
        out.push(digit_of(n % 10));
        out
    }
}

/// `n.to_string()` as characters.
pub fn i64_chars(n: i64) -> (out: Vec<char>)
    ensures
        out@ == decimal(n as int),
{
    if n < 0 {
        let m: u64 = if n == i64::MIN {
            9223372036854775808u64
        } else {
            (0 - n) as u64
        };
        let mut out = Vec::new();
        out.push('-');
        let d = digits_of(m);
        push_all(&mut out, d.as_slice());
        assert(out@ =~= seq!['-'] + digits((-(n as int)) as nat));
        out
    } else {
        digits_of(n as u64)
    }
}

pub fn usize_chars(n: usize) -> (out: Vec<char>)
    ensures
        out@ == decimal(n as int),
{
    digits_of(n as u64)
}

/// `parts.join(sep)`.
pub fn join_lines(parts: &Vec<String>, sep: &str) -> (out: String)
    ensures
        out@ == join(parts@.map_values(|p: String| p@), sep@),
{
    let ghost views = parts@.map_values(|p: String| p@);
    let sepc = chars_of(sep);
    let mut acc: Vec<char> = Vec::new();
    let mut i: usize = 0;
    while i < parts.len()
        invariant
            i <= parts.len(),
            views == parts@.map_values(|p: String| p@),
            sepc@ == sep@,
            acc@ == join(views.take(i as int), sep@),
        decreases parts.len() - i,
    {
        let pc = chars_of(parts[i].as_str());
        if i > 0 {
            push_all(&mut acc, sepc.as_slice());
        }
        push_all(&mut acc, pc.as_slice());
        proof {
            let t = views.take(i + 1);
            assert(t.drop_last() =~= views.take(i as int));
            assert(t.last() == parts@[i as int]@);
            if i == 0 {
                assert(acc@ =~= t[0]);
            }
        }
        i = i + 1;
    }
    assert(views.take(parts.len() as int) =~= views);
    string_of(acc.as_slice())
}

} // verus!
