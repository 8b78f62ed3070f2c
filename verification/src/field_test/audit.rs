//! Choosing the recommendations an auditor reads for one repository, and
//! the worksheet the auditor fills in.
use vstd::prelude::*;

use crate::field_test::surface::{action_key, action_keys, ActionSurface, DecisionSurface};
use crate::sorted::str_views;
use crate::text::{chars_of, push_all, push_str, string_of, usize_chars, decimal};

verus! {

/// Marks a recommendation the merge removed.
pub const WITHDRAWN_PREFIX: &'static str = "[withdrawn] ";

pub type Key = (Seq<char>, Seq<char>);

/// The keys of `c` that `b` does not hold, in the order of `c`.
pub open spec fn missing_from(b: Seq<Key>, c: Seq<Key>) -> Seq<Key>
    decreases c.len(),
{
    if c.len() == 0 {
        seq![]
    } else {
        missing_from(b, c.drop_last()) + if b.contains(c.last()) {
            seq![]
        } else {
            seq![c.last()]
        }
    }
}

/// Keys with `prefix` put in front of their text.
pub open spec fn prefixed(s: Seq<Key>, prefix: Seq<char>) -> Seq<Key> {
    s.map_values(|k: Key| (k.0, prefix + k.1))
}

/// Keys of `c` whose text is neither in `fresh` nor in `seen`.
pub open spec fn rotation_pool(c: Seq<Key>, fresh: Seq<Seq<char>>, seen: Seq<Seq<char>>) -> Seq<Key>
    decreases c.len(),
{
    if c.len() == 0 {
        seq![]
    } else {
        rotation_pool(c.drop_last(), fresh, seen) + if !fresh.contains(c.last().1) && !seen.contains(
            c.last().1,
        ) {
            seq![c.last()]
        } else {
            seq![]
        }
    }
}

/// At most the first `n` elements.
pub open spec fn take_at_most<T>(s: Seq<T>, n: int) -> Seq<T> {
    if n < s.len() {
        s.take(n)
    } else {
        s
    }
}

pub open spec fn texts(s: Seq<Key>) -> Seq<Seq<char>> {
    s.map_values(|k: Key| k.1)
}

/// The recommendations due for an audit: every new or changed one, every
/// withdrawn one (marked), then up to `rotation` never-audited ones.
pub open spec fn select_spec(b: Seq<Key>, c: Seq<Key>, seen: Seq<Seq<char>>, rotation: int) -> Seq<Key> {
    let fresh = missing_from(b, c);
    fresh + prefixed(missing_from(c, b), WITHDRAWN_PREFIX@) + take_at_most(
        rotation_pool(c, texts(fresh), seen),
        rotation,
    )
}

fn contains_action(s: &Vec<ActionSurface>, a: &ActionSurface) -> (r: bool)
    ensures
        r == action_keys(s@).contains(action_key(*a)),
{
    let mut i: usize = 0;
    while i < s.len()
        invariant
            i <= s@.len(),
            forall|j: int| 0 <= j < i ==> action_keys(s@)[j] != action_key(*a),
        decreases s.len() - i,
    {
        if s[i].same(a) {
            assert(action_keys(s@)[i as int] == action_key(*a));
            return true;
        }
        i = i + 1;
    }
    false
}

fn contains_text(s: &Vec<String>, t: &String) -> (r: bool)
    ensures
        r == str_views(s@).contains(t@),
{
    let mut i: usize = 0;
    while i < s.len()
        invariant
            i <= s@.len(),
            forall|j: int| 0 <= j < i ==> str_views(s@)[j] != t@,
        decreases s.len() - i,
    {
        if s[i] == *t {
            assert(str_views(s@)[i as int] == t@);
            return true;
        }
        i = i + 1;
    }
    false
}

/// Copies of the actions of `c` absent from `b`, in the order of `c`.
fn missing_actions(b: &Vec<ActionSurface>, c: &Vec<ActionSurface>) -> (out: Vec<ActionSurface>)
    ensures
        action_keys(out@) == missing_from(action_keys(b@), action_keys(c@)),
{
    let ghost ck = action_keys(c@);
    let mut out: Vec<ActionSurface> = Vec::new();
    let mut i: usize = 0;
    while i < c.len()
        invariant
            i <= c@.len(),
            ck == action_keys(c@),
            action_keys(out@) == missing_from(action_keys(b@), ck.take(i as int)),
        decreases c.len() - i,
    {
        let ghost prev = action_keys(out@);
        if !contains_action(b, &c[i]) {
            let a = c[i].copy();
            out.push(a);
            assert(action_keys(out@) =~= prev.push(ck[i as int]));
        }
        proof {
            let t = ck.take(i + 1);
            assert(t.drop_last() =~= ck.take(i as int));
            assert(t.last() == ck[i as int]);
        }
        i = i + 1;
    }
    assert(ck.take(c@.len() as int) =~= ck);
    out
}

/// Pick the recommendations an auditor must read this merge: every one
/// that is new or changed, every one withdrawn (marked as such), plus a
/// bounded slice of ones never audited.
pub fn select_for_audit(
    baseline: &DecisionSurface,
    current: &DecisionSurface,
    already_seen: &Vec<String>,
    rotation: usize,
) -> (out: Vec<ActionSurface>)
    ensures
        action_keys(out@) == select_spec(
            action_keys(baseline.actions@),
            action_keys(current.actions@),
            str_views(already_seen@),
            rotation as int,
        ),
{
    let ghost bk = action_keys(baseline.actions@);
    let ghost ck = action_keys(current.actions@);
    let fresh = missing_actions(&baseline.actions, &current.actions);
    let mut fresh_texts: Vec<String> = Vec::new();
    let mut i: usize = 0;
    while i < fresh.len()
        invariant
            i <= fresh@.len(),
            str_views(fresh_texts@) == texts(action_keys(fresh@)).take(i as int),
        decreases fresh.len() - i,
    {
        let t = fresh[i].text.clone();
        let ghost prev = str_views(fresh_texts@);
        let ghost tv = t@;
        assert(texts(action_keys(fresh@))[i as int] == tv);
        fresh_texts.push(t);
        assert(str_views(fresh_texts@) =~= prev.push(tv));
        assert(str_views(fresh_texts@) =~= texts(action_keys(fresh@)).take(i + 1));
        i = i + 1;
    }
    assert(texts(action_keys(fresh@)).take(fresh@.len() as int) =~= texts(action_keys(fresh@)));
    let gone = missing_actions(&current.actions, &baseline.actions);
    let mut out: Vec<ActionSurface> = Vec::new();
    let mut k: usize = 0;
    while k < fresh.len()
        invariant
            k <= fresh@.len(),
            action_keys(out@) == action_keys(fresh@).take(k as int),
        decreases fresh.len() - k,
    {
        let a = fresh[k].copy();
        let ghost prev = action_keys(out@);
        let ghost ak = action_key(a);
        assert(action_keys(fresh@)[k as int] == ak);
        out.push(a);
        assert(action_keys(out@) =~= prev.push(ak));
        assert(action_keys(out@) =~= action_keys(fresh@).take(k + 1));
        k = k + 1;
    }
    assert(action_keys(fresh@).take(fresh@.len() as int) =~= action_keys(fresh@));
    let ghost base_len = out@.len();
    let ghost gk = prefixed(action_keys(gone@), WITHDRAWN_PREFIX@);
    let mut g: usize = 0;
    while g < gone.len()
        invariant
            g <= gone@.len(),
            base_len == action_keys(fresh@).len(),
            gk == prefixed(action_keys(gone@), WITHDRAWN_PREFIX@),
            action_keys(out@) == action_keys(fresh@) + gk.take(g as int),
        decreases gone.len() - g,
    {
        let mut text = chars_of(WITHDRAWN_PREFIX);
        push_str(&mut text, gone[g].text.as_str());
        let a = ActionSurface { target_tab: gone[g].target_tab.clone(), text: string_of(text.as_slice()) };
        let ghost prev = action_keys(out@);
        let ghost ak = action_key(a);
        assert(gk[g as int] == ak);
        out.push(a);
        assert(action_keys(out@) =~= prev.push(ak));
        assert(action_keys(out@) =~= action_keys(fresh@) + gk.take(g + 1));
        g = g + 1;
    }
    assert(gk.take(gone@.len() as int) =~= gk);
    let ghost mid = action_keys(out@);
    let ghost pool = rotation_pool(ck, str_views(fresh_texts@), str_views(already_seen@));
    let mut taken: usize = 0;
    let mut j: usize = 0;
    while j < current.actions.len() && taken < rotation
        invariant
            j <= current.actions@.len(),
            ck == action_keys(current.actions@),
            taken <= rotation,
            pool == rotation_pool(ck, str_views(fresh_texts@), str_views(already_seen@)),
            taken == rotation_pool(ck.take(j as int), str_views(fresh_texts@), str_views(already_seen@)).len(),
            action_keys(out@) == mid + rotation_pool(ck.take(j as int), str_views(fresh_texts@), str_views(already_seen@)),
        decreases current.actions.len() - j,
    {
        let a = &current.actions[j];
        let keep = !contains_text(&fresh_texts, &a.text) && !contains_text(already_seen, &a.text);
        let ghost prev = action_keys(out@);
        if keep {
            let c = a.copy();
            let ghost ak = action_key(c);
            out.push(c);
            assert(action_keys(out@) =~= prev.push(ak));
            taken = taken + 1;
        }
        proof {
            let t = ck.take(j + 1);
            assert(t.drop_last() =~= ck.take(j as int));
            assert(t.last() == ck[j as int]);
            assert(ck[j as int].1 == a.text@);
            assert(ck[j as int] == action_key(*a));
            assert(action_keys(out@) =~= mid + rotation_pool(t, str_views(fresh_texts@), str_views(already_seen@)));
        }
        j = j + 1;
    }
    proof {
        lemma_pool_prefix(ck, str_views(fresh_texts@), str_views(already_seen@), j as int);
        let sofar = rotation_pool(ck.take(j as int), str_views(fresh_texts@), str_views(already_seen@));
        if j >= ck.len() {
            assert(ck.take(j as int) =~= ck);
            if taken < rotation {
                assert(take_at_most(pool, rotation as int) == pool);
            } else {
                assert(taken == rotation);
                assert(pool.take(rotation as int) =~= sofar);
            }
        } else {
            assert(taken == rotation);
            assert(pool.take(rotation as int) =~= sofar);
        }
        assert(action_keys(out@) =~= select_spec(bk, ck, str_views(already_seen@), rotation as int));
    }
    out
}

/// The pool over a prefix of `c` is a prefix of the pool over `c`.
proof fn lemma_pool_prefix(c: Seq<Key>, fresh: Seq<Seq<char>>, seen: Seq<Seq<char>>, j: int)
    requires
        0 <= j <= c.len(),
    ensures
        rotation_pool(c.take(j), fresh, seen).len() <= rotation_pool(c, fresh, seen).len(),
        rotation_pool(c, fresh, seen).take(rotation_pool(c.take(j), fresh, seen).len() as int)
            == rotation_pool(c.take(j), fresh, seen),
    decreases c.len() - j,
{
    if j == c.len() {
        assert(c.take(j) =~= c);
        assert(rotation_pool(c, fresh, seen).take(rotation_pool(c, fresh, seen).len() as int)
            =~= rotation_pool(c, fresh, seen));
    } else {
        lemma_pool_prefix(c, fresh, seen, j + 1);
        let t = c.take(j + 1);
        assert(t.drop_last() =~= c.take(j));
        let a = rotation_pool(c.take(j), fresh, seen);
        let b = rotation_pool(t, fresh, seen);
        let full = rotation_pool(c, fresh, seen);
        assert(b.take(a.len() as int) =~= a);
        assert(full.take(b.len() as int).take(a.len() as int) =~= full.take(a.len() as int));
    }
}

// ── Laws of the selection ──────────────────────────────────────────────

pub(crate) proof fn lemma_missing_contains(b: Seq<Key>, c: Seq<Key>, k: Key)
    requires
        c.contains(k),
        !b.contains(k),
    ensures
        missing_from(b, c).contains(k),
    decreases c.len(),
{
    if c.last() == k {
        let m = missing_from(b, c);
        assert(m[m.len() - 1] == k);
    } else {
        let j = choose|j: int| 0 <= j < c.len() && c[j] == k;
        assert(c.drop_last()[j] == k);
        lemma_missing_contains(b, c.drop_last(), k);
        let w = choose|w: int| 0 <= w < missing_from(b, c.drop_last()).len() && missing_from(b, c.drop_last())[w] == k;
        assert(missing_from(b, c)[w] == k);
    }
}

proof fn lemma_missing_members(b: Seq<Key>, c: Seq<Key>, k: Key)
    requires
        missing_from(b, c).contains(k),
    ensures
        c.contains(k),
        !b.contains(k),
    decreases c.len(),
{
    let m = missing_from(b, c);
    let w = choose|w: int| 0 <= w < m.len() && m[w] == k;
    let m0 = missing_from(b, c.drop_last());
    if w < m0.len() {
        assert(m0[w] == k);
        lemma_missing_members(b, c.drop_last(), k);
        let j = choose|j: int| 0 <= j < c.drop_last().len() && c.drop_last()[j] == k;
        assert(c[j] == k);
    } else {
        assert(k == c.last());
        assert(c[c.len() - 1] == k);
    }
}

pub(crate) proof fn lemma_pool_members(c: Seq<Key>, fresh: Seq<Seq<char>>, seen: Seq<Seq<char>>, k: Key)
    requires
        rotation_pool(c, fresh, seen).contains(k),
    ensures
        c.contains(k),
        !fresh.contains(k.1),
        !seen.contains(k.1),
    decreases c.len(),
{
    let m = rotation_pool(c, fresh, seen);
    let w = choose|w: int| 0 <= w < m.len() && m[w] == k;
    let m0 = rotation_pool(c.drop_last(), fresh, seen);
    if w < m0.len() {
        assert(m0[w] == k);
        lemma_pool_members(c.drop_last(), fresh, seen, k);
        let j = choose|j: int| 0 <= j < c.drop_last().len() && c.drop_last()[j] == k;
        assert(c[j] == k);
    } else {
        assert(k == c.last());
        assert(c[c.len() - 1] == k);
    }
}

pub(crate) proof fn lemma_take_at_most_contains<T>(s: Seq<T>, n: int, k: T)
    requires
        0 <= n,
        take_at_most(s, n).contains(k),
    ensures
        s.contains(k),
{
    let t = take_at_most(s, n);
    let w = choose|w: int| 0 <= w < t.len() && t[w] == k;
    assert(s[w] == k);
}

/// Every recommendation that is new in this merge is selected, whatever
/// the rotation allowance and whatever was audited before.
pub proof fn lemma_new_recommendations_are_selected(
    b: Seq<Key>,
    c: Seq<Key>,
    seen: Seq<Seq<char>>,
    rotation: int,
    k: Key,
)
    requires
        c.contains(k),
        !b.contains(k),
    ensures
        select_spec(b, c, seen, rotation).contains(k),
{
    lemma_missing_contains(b, c, k);
    let fresh = missing_from(b, c);
    let w = choose|w: int| 0 <= w < fresh.len() && fresh[w] == k;
    assert(select_spec(b, c, seen, rotation)[w] == k);
}

/// Every recommendation the merge withdrew is selected, marked as
/// withdrawn.
pub proof fn lemma_withdrawn_recommendations_are_selected(
    b: Seq<Key>,
    c: Seq<Key>,
    seen: Seq<Seq<char>>,
    rotation: int,
    k: Key,
)
    requires
        b.contains(k),
        !c.contains(k),
    ensures
        select_spec(b, c, seen, rotation).contains((k.0, WITHDRAWN_PREFIX@ + k.1)),
{
    lemma_missing_contains(c, b, k);
    let gone = missing_from(c, b);
    let w = choose|w: int| 0 <= w < gone.len() && gone[w] == k;
    let fresh = missing_from(b, c);
    assert(select_spec(b, c, seen, rotation)[fresh.len() + w] == (k.0, WITHDRAWN_PREFIX@ + k.1));
}

/// Beyond the new and the withdrawn recommendations, at most `rotation`
/// are selected.
pub proof fn lemma_rotation_is_bounded(b: Seq<Key>, c: Seq<Key>, seen: Seq<Seq<char>>, rotation: int)
    requires
        rotation >= 0,
    ensures
        select_spec(b, c, seen, rotation).len() <= missing_from(b, c).len() + missing_from(c, b).len()
            + rotation,
{
}

/// Every selected recommendation is new, or withdrawn (and marked), or one
/// that both the baseline and the current surface hold and that was never
/// audited before.
pub proof fn lemma_selected_items_are_accounted_for(
    b: Seq<Key>,
    c: Seq<Key>,
    seen: Seq<Seq<char>>,
    rotation: int,
    k: Key,
)
    requires
        0 <= rotation,
        select_spec(b, c, seen, rotation).contains(k),
    ensures
        (c.contains(k) && !b.contains(k)) || (exists|w: Key|
            b.contains(w) && !c.contains(w) && k == (w.0, WITHDRAWN_PREFIX@ + w.1)) || (b.contains(k)
            && c.contains(k) && !seen.contains(k.1)),
{
    let fresh = missing_from(b, c);
    let gone = prefixed(missing_from(c, b), WITHDRAWN_PREFIX@);
    let pool = take_at_most(rotation_pool(c, texts(fresh), seen), rotation);
    let all = select_spec(b, c, seen, rotation);
    let i = choose|i: int| 0 <= i < all.len() && all[i] == k;
    if i < fresh.len() {
        assert(fresh[i] == k);
        lemma_missing_members(b, c, k);
    } else if i < fresh.len() + gone.len() {
        let w = missing_from(c, b)[i - fresh.len()];
        assert(missing_from(c, b).contains(w));
        lemma_missing_members(c, b, w);
        assert(k == (w.0, WITHDRAWN_PREFIX@ + w.1));
    } else {
        assert(pool[i - fresh.len() - gone.len()] == k);
        assert(pool.contains(k));
        lemma_take_at_most_contains(rotation_pool(c, texts(fresh), seen), rotation, k);
        lemma_pool_members(c, texts(fresh), seen, k);
        if !b.contains(k) {
            lemma_missing_contains(b, c, k);
            let w = choose|w: int| 0 <= w < fresh.len() && fresh[w] == k;
            assert(texts(fresh)[w] == k.1);
        }
    }
}

/// `s` with every `|` escaped as `\|`.
pub open spec fn escape_pipes(s: Seq<char>) -> Seq<char>
    decreases s.len(),
{
    if s.len() == 0 {
        seq![]
    } else {
        escape_pipes(s.drop_last()) + if s.last() == '|' {
            seq!['\\', '|']
        } else {
            seq![s.last()]
        }
    }
}

pub open spec fn worksheet_header(repo: Seq<char>) -> Seq<char> {
    "## "@ + repo + "\n\nFor each recommendation below, answer all three. Any **Safe** failure blocks the merge; **True** and **Actionable** failures become tickets.\n\n| # | Recommendation | True? | Safe? | Actionable? | Notes |\n|---|---|---|---|---|---|\n"@
}

pub open spec fn worksheet_rows(items: Seq<ActionSurface>) -> Seq<char>
    decreases items.len(),
{
    if items.len() == 0 {
        seq![]
    } else {
        worksheet_rows(items.drop_last()) + "| "@ + decimal(items.len() as int) + " | "@
            + escape_pipes(items.last().text@) + " | | | | |\n"@
    }
}

/// Render the worksheet an auditor fills in: the True / Safe / Actionable
/// rubric, then one numbered row per recommendation.
pub fn render_worksheet(repo: &str, items: &[ActionSurface]) -> (out: String)
    ensures
        out@ == worksheet_header(repo@) + worksheet_rows(items@),
{
    let mut acc = chars_of("## ");
    push_str(&mut acc, repo);
    push_str(&mut acc, "\n\nFor each recommendation below, answer all three. Any **Safe** failure blocks the merge; **True** and **Actionable** failures become tickets.\n\n| # | Recommendation | True? | Safe? | Actionable? | Notes |\n|---|---|---|---|---|---|\n");
    let ghost header = acc@;
    let mut i: usize = 0;
    while i < items.len()
        invariant
            i <= items@.len(),
            header == worksheet_header(repo@),
            acc@ == header + worksheet_rows(items@.take(i as int)),
        decreases items.len() - i,
    {
        let ghost before = acc@;
        push_str(&mut acc, "| ");
        let n = usize_chars(i + 1);
        push_all(&mut acc, n.as_slice());
        push_str(&mut acc, " | ");
        let text = chars_of(items[i].text.as_str());
        let ghost start = acc@;
        let mut k: usize = 0;
        while k < text.len()
            invariant
                k <= text@.len(),
                acc@ == start + escape_pipes(text@.take(k as int)),
            decreases text.len() - k,
        {
            if text[k] == '|' {
                acc.push('\\');
                acc.push('|');
            } else {
                acc.push(text[k]);
            }
            proof {
                let t = text@.take(k + 1);
                assert(t.drop_last() =~= text@.take(k as int));
            }
            k = k + 1;
        }
        assert(text@.take(text@.len() as int) =~= text@);
        push_str(&mut acc, " | | | | |\n");
        proof {
            let t = items@.take(i + 1);
            assert(t.drop_last() =~= items@.take(i as int));
            assert(t.len() == i + 1);
            assert(acc@ =~= header + worksheet_rows(t));
        }
        i = i + 1;
    }
    assert(items@.take(items@.len() as int) =~= items@);
    string_of(acc.as_slice())
}

} // verus!
