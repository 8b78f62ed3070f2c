//! The field-test driver's decisions: what to do with each repository,
//! and how the audit's rotation allowance is spent across the corpus.
use vstd::prelude::*;

use crate::field_test::audit::{
    lemma_missing_contains, lemma_new_recommendations_are_selected, lemma_pool_members,
    lemma_take_at_most_contains, missing_from, prefixed, rotation_pool, select_for_audit,
    select_spec, take_at_most, texts, Key, WITHDRAWN_PREFIX,
};
use crate::field_test::mode::Mode;
use crate::field_test::surface::{action_key, action_keys, ActionSurface, DecisionSurface};
use crate::sorted::str_views;
use crate::text::{chars_of, push_all, push_str, string_of, usize_chars, decimal};

verus! {

/// What the driver does with one corpus repository on this run.
#[derive(Debug, PartialEq, Eq)]
pub enum RepoStep {
    /// Refuse to manufacture audit evidence during a normal run.
    MissingBaseline,
    /// Diff the current surface against the committed baseline.
    Compare(DecisionSurface),
    /// Collect the repository for the audit worksheet; `None` means it has
    /// no baseline yet.
    Audit(Option<DecisionSurface>),
    /// Overwrite the baseline unconditionally.
    Accept,
}

/// Decide what to do with one repository. Only `Accept` ever writes a
/// baseline; a normal run without one is an error, never an implicit accept.
pub fn step_for(mode: Mode, baseline: Option<DecisionSurface>) -> (r: RepoStep)
    ensures
        match mode {
            Mode::Accept => r is Accept,
            Mode::Audit => r == RepoStep::Audit(baseline),
            Mode::Run => match baseline {
                None => r is MissingBaseline,
                Some(b) => r == RepoStep::Compare(b),
            },
        },
{
    match (mode, baseline) {
        (Mode::Accept, _) => RepoStep::Accept,
        (Mode::Audit, base) => RepoStep::Audit(base),
        (Mode::Run, None) => RepoStep::MissingBaseline,
        (Mode::Run, Some(base)) => RepoStep::Compare(base),
    }
}

/// Whether a mode reads the committed baseline at all. `Accept` never does:
/// it is the command that repairs a corrupt one.
pub fn reads_baseline(mode: Mode) -> (r: bool)
    ensures
        r == !(mode is Accept),
{
    match mode {
        Mode::Accept => false,
        Mode::Run | Mode::Audit => true,
    }
}

/// The baseline a mode works from, given what reading the committed one
/// gave: `Accept` never depends on it (the read is not consulted, so a
/// corrupt file cannot stop the command that repairs it); the other modes
/// take it as it is, errors included.
pub fn baseline_for(
    mode: Mode,
    read: Result<Option<DecisionSurface>, String>,
) -> (r: Result<Option<DecisionSurface>, String>)
    ensures
        mode is Accept ==> r == Ok::<Option<DecisionSurface>, String>(None),
        !(mode is Accept) ==> r == read,
{
    match mode {
        Mode::Accept => Ok(None),
        Mode::Run | Mode::Audit => read,
    }
}

/// One repository's contribution to the audit worksheet.
#[derive(Debug, PartialEq, Eq)]
pub struct AuditInput {
    pub name: String,
    pub baseline: Option<DecisionSurface>,
    pub current: DecisionSurface,
}

/// How many of `items` the baseline already held.
pub open spec fn count_in(items: Seq<Key>, base: Seq<Key>) -> nat
    decreases items.len(),
{
    if items.len() == 0 {
        0
    } else {
        count_in(items.drop_last(), base) + if base.contains(items.last()) {
            1nat
        } else {
            0nat
        }
    }
}

pub open spec fn baseline_keys(input: AuditInput) -> Seq<Key> {
    match input.baseline {
        Some(b) => action_keys(b.actions@),
        None => seq![],
    }
}

/// The worksheet rows of `inputs` under a shared allowance of `remaining`
/// pre-existing recommendations.
pub open spec fn audit_spec(inputs: Seq<AuditInput>, seen: Seq<Seq<char>>, remaining: int) -> Seq<
    (Seq<char>, Seq<Key>),
>
    decreases inputs.len(),
{
    if inputs.len() == 0 {
        seq![]
    } else {
        let input = inputs[0];
        let base = baseline_keys(input);
        let items = select_spec(base, action_keys(input.current.actions@), seen, remaining);
        let spent = count_in(items, base);
        let left = if remaining > spent { remaining - spent } else { 0 };
        (if items.len() > 0 {
            seq![(input.name@, items)]
        } else {
            seq![]
        }) + audit_spec(inputs.drop_first(), seen, left)
    }
}

pub open spec fn sample_views(s: Seq<(String, Vec<ActionSurface>)>) -> Seq<(Seq<char>, Seq<Key>)> {
    s.map_values(|p: (String, Vec<ActionSurface>)| (p.0@, action_keys(p.1@)))
}

fn contains_action(s: &Vec<ActionSurface>, a: &ActionSurface) -> (r: bool)
    ensures
        r == action_keys(s@).contains(action_key(*a)),
{
    let mut i: usize = 0;
    while i < s.len()
        invariant
            i <= s@.len(),
            forall|j: int| 0 <= j < i ==> action_keys(s@)[j] != action_key(*a),
        decreases s.len() - i,
    {
        if s[i].same(a) {
            assert(action_keys(s@)[i as int] == action_key(*a));
            return true;
        }
        i = i + 1;
    }
    false
}

/// Sample the corpus for the audit worksheet under one shared rotation
/// allowance: new and changed recommendations are never capped, while the
/// pre-existing ones drawn across all repositories number at most
/// `rotation`. Repositories with nothing to audit are left out.
pub fn audit_corpus(inputs: &[AuditInput], already_seen: &Vec<String>, rotation: usize) -> (out: Vec<(String, Vec<ActionSurface>)>)
    ensures
        sample_views(out@) == audit_spec(inputs@, str_views(already_seen@), rotation as int),
{
    let ghost seen = str_views(already_seen@);
    let mut out: Vec<(String, Vec<ActionSurface>)> = Vec::new();
    let mut remaining = rotation;
    let mut i: usize = 0;
    let empty = DecisionSurface::empty();
    assert(inputs@.skip(0) =~= inputs@);
    while i < inputs.len()
        invariant
            i <= inputs@.len(),
            seen == str_views(already_seen@),
            empty.actions@.len() == 0,
            sample_views(out@) + audit_spec(inputs@.skip(i as int), seen, remaining as int)
                == audit_spec(inputs@, seen, rotation as int),
        decreases inputs.len() - i,
    {
        let input = &inputs[i];
        let baseline: &DecisionSurface = match &input.baseline {
            Some(b) => b,
            None => &empty,
        };
        let ghost base = baseline_keys(*input);
        assert(action_keys(baseline.actions@) =~= base);
        let items = select_for_audit(baseline, &input.current, already_seen, remaining);
        let ghost ik = action_keys(items@);
        let mut spent: usize = 0;
        let mut k: usize = 0;
        while k < items.len()
            invariant
                k <= items@.len(),
                ik == action_keys(items@),
                spent == count_in(ik.take(k as int), base),
                spent <= k,
                base == action_keys(baseline.actions@),
            decreases items.len() - k,
        {
            if contains_action(&baseline.actions, &items[k]) {
                spent = spent + 1;
            }
            proof {
                let t = ik.take(k + 1);
                assert(t.drop_last() =~= ik.take(k as int));
                assert(t.last() == ik[k as int]);
            }
            k = k + 1;
        }
        assert(ik.take(items@.len() as int) =~= ik);
        let ghost old_remaining = remaining;
        remaining = if remaining > spent { remaining - spent } else { 0 };
        let ghost prev = sample_views(out@);
        if items.len() > 0 {
            let name = input.name.clone();
            out.push((name, items));
            assert(sample_views(out@) =~= prev.push((input.name@, ik)));
        }
        proof {
            let rest = inputs@.skip(i as int);
            assert(rest[0] == inputs@[i as int]);
            assert(rest.drop_first() =~= inputs@.skip(i + 1));
            assert(sample_views(out@) + audit_spec(inputs@.skip(i + 1), seen, remaining as int)
                =~= prev + audit_spec(rest, seen, old_remaining as int));
        }
        i = i + 1;
    }
    proof {
        assert(inputs@.skip(i as int) =~= Seq::<AuditInput>::empty());
        assert(sample_views(out@) =~= sample_views(out@) + audit_spec(inputs@.skip(i as int), seen, remaining as int));
    }
    out
}

// ── Laws of the corpus-wide allowance ──────────────────────────────────

/// The new and the withdrawn recommendations of every repository.
pub open spec fn changes(inputs: Seq<AuditInput>) -> int
    decreases inputs.len(),
{
    if inputs.len() == 0 {
        0
    } else {
        let b = baseline_keys(inputs[0]);
        let c = action_keys(inputs[0].current.actions@);
        missing_from(b, c).len() + missing_from(c, b).len() + changes(inputs.drop_first())
    }
}

/// The number of worksheet rows.
pub open spec fn rows(out: Seq<(Seq<char>, Seq<Key>)>) -> int
    decreases out.len(),
{
    if out.len() == 0 {
        0
    } else {
        out[0].1.len() + rows(out.drop_first())
    }
}

proof fn lemma_count_concat(x: Seq<Key>, y: Seq<Key>, base: Seq<Key>)
    ensures
        count_in(x + y, base) == count_in(x, base) + count_in(y, base),
    decreases y.len(),
{
    if y.len() == 0 {
        assert(x + y =~= x);
    } else {
        assert((x + y).drop_last() =~= x + y.drop_last());
        assert((x + y).last() == y.last());
        lemma_count_concat(x, y.drop_last(), base);
    }
}

proof fn lemma_count_all_in(s: Seq<Key>, base: Seq<Key>)
    requires
        forall|i: int| 0 <= i < s.len() ==> base.contains(#[trigger] s[i]),
    ensures
        count_in(s, base) == s.len(),
    decreases s.len(),
{
    if s.len() > 0 {
        assert(base.contains(s[s.len() - 1]));
        lemma_count_all_in(s.drop_last(), base);
    }
}

proof fn lemma_count_bound(s: Seq<Key>, base: Seq<Key>)
    ensures
        0 <= count_in(s, base) <= s.len(),
    decreases s.len(),
{
    if s.len() > 0 {
        lemma_count_bound(s.drop_last(), base);
    }
}

proof fn lemma_rows_cons(x: (Seq<char>, Seq<Key>), s: Seq<(Seq<char>, Seq<Key>)>)
    ensures
        rows(seq![x] + s) == x.1.len() + rows(s),
{
    assert((seq![x] + s).drop_first() =~= s);
}

/// Rows drawn from the rotation pool are pre-existing: the baseline holds
/// them, so they count against the allowance.
proof fn lemma_rotated_are_preexisting(b: Seq<Key>, c: Seq<Key>, seen: Seq<Seq<char>>, r: int)
    requires
        r >= 0,
    ensures
        count_in(select_spec(b, c, seen, r), b) >= take_at_most(
            rotation_pool(c, texts(missing_from(b, c)), seen),
            r,
        ).len(),
{
    let fresh = missing_from(b, c);
    let gone = prefixed(missing_from(c, b), WITHDRAWN_PREFIX@);
    let rot = take_at_most(rotation_pool(c, texts(fresh), seen), r);
    assert forall|i: int| 0 <= i < rot.len() implies b.contains(#[trigger] rot[i]) by {
        let k = rot[i];
        assert(rot.contains(k));
        lemma_take_at_most_contains(rotation_pool(c, texts(fresh), seen), r, k);
        lemma_pool_members(c, texts(fresh), seen, k);
        if !b.contains(k) {
            lemma_missing_contains(b, c, k);
            let w = choose|w: int| 0 <= w < fresh.len() && fresh[w] == k;
            assert(texts(fresh)[w] == k.1);
        }
    }
    lemma_count_all_in(rot, b);
    lemma_count_concat(fresh + gone, rot, b);
    lemma_count_bound(fresh + gone, b);
    assert(select_spec(b, c, seen, r) == fresh + gone + rot);
}

/// The rotation allowance is one budget for the whole corpus: beyond the
/// new and the withdrawn recommendations of every repository, the
/// worksheet holds at most `rotation` rows.
pub proof fn lemma_rotation_allowance_is_corpus_wide(
    inputs: Seq<AuditInput>,
    seen: Seq<Seq<char>>,
    rotation: int,
)
    requires
        rotation >= 0,
    ensures
        rows(audit_spec(inputs, seen, rotation)) <= changes(inputs) + rotation,
    decreases inputs.len(),
{
    if inputs.len() > 0 {
        let input = inputs[0];
        let b = baseline_keys(input);
        let c = action_keys(input.current.actions@);
        let items = select_spec(b, c, seen, rotation);
        let spent = count_in(items, b);
        let left = if rotation > spent { rotation - spent } else { 0 };
        let rot = take_at_most(rotation_pool(c, texts(missing_from(b, c)), seen), rotation);
        lemma_rotated_are_preexisting(b, c, seen, rotation);
        lemma_rotation_allowance_is_corpus_wide(inputs.drop_first(), seen, left);
        let rest = audit_spec(inputs.drop_first(), seen, left);
        assert(items.len() == missing_from(b, c).len() + missing_from(c, b).len() + rot.len());
        if items.len() > 0 {
            lemma_rows_cons((input.name@, items), rest);
            assert(audit_spec(inputs, seen, rotation) == seq![(input.name@, items)] + rest);
        } else {
            assert(audit_spec(inputs, seen, rotation) =~= rest);
        }
    }
}

/// The worksheet rows that each repository's baseline already held, as
/// the corpus-wide scan spends the allowance.
pub open spec fn preexisting_rows(inputs: Seq<AuditInput>, seen: Seq<Seq<char>>, remaining: int) -> int
    decreases inputs.len(),
{
    if inputs.len() == 0 {
        0
    } else {
        let base = baseline_keys(inputs[0]);
        let items = select_spec(base, action_keys(inputs[0].current.actions@), seen, remaining);
        let spent = count_in(items, base);
        let left = if remaining > spent {
            remaining - spent
        } else {
            0
        };
        spent + preexisting_rows(inputs.drop_first(), seen, left)
    }
}

/// No baseline recommendation of `input` reads as the withdrawal row of
/// another one.
pub open spec fn withdrawals_are_new_rows(input: AuditInput) -> bool {
    let b = baseline_keys(input);
    let c = action_keys(input.current.actions@);
    forall|i: int|
        0 <= i < missing_from(c, b).len() ==> !b.contains(
            #[trigger] prefixed(missing_from(c, b), WITHDRAWN_PREFIX@)[i],
        )
}

proof fn lemma_missing_not_in(b: Seq<Key>, c: Seq<Key>)
    ensures
        forall|i: int| 0 <= i < missing_from(b, c).len() ==> !b.contains(#[trigger] missing_from(b, c)[i]),
    decreases c.len(),
{
    if c.len() > 0 {
        lemma_missing_not_in(b, c.drop_last());
        let m = missing_from(b, c.drop_last());
        assert forall|i: int| 0 <= i < missing_from(b, c).len() implies !b.contains(
            #[trigger] missing_from(b, c)[i],
        ) by {
            if i < m.len() {
                assert(missing_from(b, c)[i] == m[i]);
            }
        }
    }
}

proof fn lemma_count_none_in(s: Seq<Key>, base: Seq<Key>)
    requires
        forall|i: int| 0 <= i < s.len() ==> !base.contains(#[trigger] s[i]),
    ensures
        count_in(s, base) == 0,
    decreases s.len(),
{
    if s.len() > 0 {
        assert(!base.contains(s[s.len() - 1]));
        lemma_count_none_in(s.drop_last(), base);
    }
}

/// The rotation allowance bounds the pre-existing rows of the whole
/// corpus: across all repositories, the worksheet holds at most `rotation`
/// rows that a baseline already held (so long as no withdrawal row
/// coincides with a baseline recommendation).
pub proof fn lemma_preexisting_rows_within_rotation(
    inputs: Seq<AuditInput>,
    seen: Seq<Seq<char>>,
    rotation: int,
)
    requires
        rotation >= 0,
        forall|i: int| 0 <= i < inputs.len() ==> withdrawals_are_new_rows(#[trigger] inputs[i]),
    ensures
        0 <= preexisting_rows(inputs, seen, rotation) <= rotation,
    decreases inputs.len(),
{
    if inputs.len() > 0 {
        let input = inputs[0];
        assert(withdrawals_are_new_rows(inputs[0]));
        let b = baseline_keys(input);
        let c = action_keys(input.current.actions@);
        let fresh = missing_from(b, c);
        let gone = prefixed(missing_from(c, b), WITHDRAWN_PREFIX@);
        let rot = take_at_most(rotation_pool(c, texts(fresh), seen), rotation);
        let items = select_spec(b, c, seen, rotation);
        assert(items == fresh + gone + rot);
        lemma_missing_not_in(b, c);
        lemma_count_none_in(fresh, b);
        assert forall|i: int| 0 <= i < gone.len() implies !b.contains(#[trigger] gone[i]) by {}
        lemma_count_none_in(gone, b);
        lemma_count_bound(rot, b);
        lemma_count_concat(fresh, gone, b);
        lemma_count_concat(fresh + gone, rot, b);
        let spent = count_in(items, b);
        assert(spent <= rot.len() <= rotation);
        let left = rotation - spent;
        assert forall|i: int| 0 <= i < inputs.drop_first().len() implies withdrawals_are_new_rows(
            #[trigger] inputs.drop_first()[i],
        ) by {
            assert(inputs.drop_first()[i] == inputs[i + 1]);
        }
        lemma_preexisting_rows_within_rotation(inputs.drop_first(), seen, left);
    }
}

/// A recommendation new in any repository reaches the worksheet, under
/// that repository's name, however the allowance was spent.
pub proof fn lemma_new_recommendations_reach_the_worksheet(
    inputs: Seq<AuditInput>,
    seen: Seq<Seq<char>>,
    rotation: int,
    i: int,
    k: Key,
)
    requires
        0 <= i < inputs.len(),
        action_keys(inputs[i].current.actions@).contains(k),
        !baseline_keys(inputs[i]).contains(k),
    ensures
        exists|j: int|
            0 <= j < audit_spec(inputs, seen, rotation).len() && (#[trigger] audit_spec(
                inputs,
                seen,
                rotation,
            )[j]).0 == inputs[i].name@ && audit_spec(inputs, seen, rotation)[j].1.contains(k),
    decreases i,
{
    let input = inputs[0];
    let b = baseline_keys(input);
    let c = action_keys(input.current.actions@);
    let items = select_spec(b, c, seen, rotation);
    let spent = count_in(items, b);
    let left = if rotation > spent { rotation - spent } else { 0 };
    let rest = audit_spec(inputs.drop_first(), seen, left);
    let out = audit_spec(inputs, seen, rotation);
    if i == 0 {
        lemma_new_recommendations_are_selected(b, c, seen, rotation, k);
        assert(items.len() > 0);
        assert(out == seq![(input.name@, items)] + rest);
        assert(out[0] == (input.name@, items));
    } else {
        assert(inputs.drop_first()[i - 1] == inputs[i]);
        lemma_new_recommendations_reach_the_worksheet(inputs.drop_first(), seen, left, i - 1, k);
        let j = choose|j: int|
            0 <= j < rest.len() && (#[trigger] rest[j]).0 == inputs[i].name@ && rest[j].1.contains(k);
        if items.len() > 0 {
            assert(out == seq![(input.name@, items)] + rest);
            assert(out[j + 1] == rest[j]);
        } else {
            assert(out =~= rest);
            assert(out[j] == rest[j]);
        }
    }
}

/// The one-line summary a clean `run` prints.
pub fn summary_line(compared: usize) -> (s: String)
    ensures
        s@ == "field test clean across "@ + decimal(compared as int) + " repositories"@,
{
    let mut acc = chars_of("field test clean across ");
    let n = usize_chars(compared);
    push_all(&mut acc, n.as_slice());
    push_str(&mut acc, " repositories");
    string_of(acc.as_slice())
}

/// The worksheet keeps the inputs' order and leaves out repositories with
/// nothing to audit: row `j` is that of input `idx[j]`, the indices
/// increase, and every row has at least one recommendation.
pub proof fn lemma_worksheet_rows_follow_the_inputs(inputs: Seq<AuditInput>, seen: Seq<Seq<char>>, remaining: int) -> (idx: Seq<int>)
    ensures
        idx.len() == audit_spec(inputs, seen, remaining).len(),
        forall|j: int| 0 <= j < idx.len() ==> 0 <= #[trigger] idx[j] < inputs.len()
            && audit_spec(inputs, seen, remaining)[j].0 == inputs[idx[j]].name@
            && audit_spec(inputs, seen, remaining)[j].1.len() > 0,
        forall|j: int, k: int| 0 <= j < k < idx.len() ==> #[trigger] idx[j] < #[trigger] idx[k],
    decreases inputs.len(),
{
    if inputs.len() == 0 {
        seq![]
    } else {
        let input = inputs[0];
        let base = baseline_keys(input);
        let items = select_spec(base, action_keys(input.current.actions@), seen, remaining);
        let spent = count_in(items, base);
        let left = if remaining > spent { remaining - spent } else { 0 };
        let rest = inputs.drop_first();
        let sub = lemma_worksheet_rows_follow_the_inputs(rest, seen, left);
        let shifted = sub.map_values(|i: int| i + 1);
        let tail = audit_spec(rest, seen, left);
        assert forall|j: int| 0 <= j < shifted.len() implies 0 <= #[trigger] shifted[j] < inputs.len()
            && tail[j].0 == inputs[shifted[j]].name@ && tail[j].1.len() > 0 by {
            assert(rest[sub[j]] == inputs[sub[j] + 1]);
        }
        if items.len() > 0 {
            let r = seq![0int] + shifted;
            let all = audit_spec(inputs, seen, remaining);
            assert(all == seq![(input.name@, items)] + tail);
            assert forall|j: int| 0 <= j < r.len() implies 0 <= #[trigger] r[j] < inputs.len()
                && all[j].0 == inputs[r[j]].name@ && all[j].1.len() > 0 by {
                if j > 0 {
                    assert(r[j] == shifted[j - 1]);
                    assert(all[j] == tail[j - 1]);
                }
            }
            assert forall|j: int, k: int| 0 <= j < k < r.len() implies #[trigger] r[j] < #[trigger] r[k] by {
                if j > 0 {
                    assert(r[j] == shifted[j - 1] && r[k] == shifted[k - 1]);
                    assert(sub[j - 1] < sub[k - 1]);
                } else {
                    assert(r[k] == shifted[k - 1]);
                    assert(0 <= sub[k - 1]);
                }
            }
            r
        } else {
            let all = audit_spec(inputs, seen, remaining);
            assert(all =~= tail);
            assert forall|j: int, k: int| 0 <= j < k < shifted.len() implies #[trigger] shifted[j] < #[trigger] shifted[k] by {
                assert(sub[j] < sub[k]);
            }
            shifted
        }
    }
}

} // verus!
