//! The decision surface: the part of a report that expresses decisions
//! the tool makes, small enough that a baseline of it stays stable.
use vstd::prelude::*;

use crate::text::{lemma_order_antisym, lemma_order_trans, lemma_order_zero_iff_eq, lt_seq, order_of, compare_strings};

verus! {

/// How many hotspots enter the baseline.
pub const HOTSPOT_LIMIT: usize = 20;

/// Keys are strictly increasing in `str` order.
pub open spec fn keys_sorted(s: Seq<(Seq<char>, i64)>) -> bool {
    forall|i: int, j: int| 0 <= i < j < s.len() ==> lt_seq(s[i].0, s[j].0)
}

/// A map from names to integers, iterated in key order, as a
/// `BTreeMap<String, i64>` is.
#[derive(Debug, PartialEq, Eq)]
pub struct IntMap {
    entries: Vec<(String, i64)>,
}

impl View for IntMap {
    type V = Seq<(Seq<char>, i64)>;

    closed spec fn view(&self) -> Seq<(Seq<char>, i64)> {
        self.entries@.map_values(|e: (String, i64)| (e.0@, e.1))
    }
}

/// The value a sorted entry list holds for `key`.
pub open spec fn lookup(s: Seq<(Seq<char>, i64)>, key: Seq<char>) -> Option<i64> {
    if exists|i: int| key_at(s, key, i) {
        Some(s[choose|i: int| key_at(s, key, i)].1)
    } else {
        None
    }
}

/// Entry `i` holds `key`.
pub open spec fn key_at(s: Seq<(Seq<char>, i64)>, key: Seq<char>, i: int) -> bool {
    0 <= i < s.len() && s[i].0 == key
}

impl IntMap {
    #[verifier::type_invariant]
    closed spec fn inv(self) -> bool {
        keys_sorted(self@)
    }

    pub fn new() -> (m: IntMap)
        ensures
            m@ == Seq::<(Seq<char>, i64)>::empty(),
    {
        let m = IntMap { entries: Vec::new() };
        assert(m@ =~= Seq::<(Seq<char>, i64)>::empty());
        m
    }

    /// Number of entries; keys are always held in sorted order.
    pub fn len(&self) -> (n: usize)
        ensures
            n == self@.len(),
            keys_sorted(self@),
    {
        proof {
            use_type_invariant(self);
        }
        self.entries.len()
    }

    /// The `i`-th entry in key order.
    pub fn entry(&self, i: usize) -> (r: (&String, i64))
        requires
            i < self@.len(),
        ensures
            r.0@ == self@[i as int].0,
            r.1 == self@[i as int].1,
    {
        (&self.entries[i].0, self.entries[i].1)
    }

    /// Position of the first key not less than `key`, and whether it is `key`.
    fn position(&self, key: &String) -> (r: (usize, bool))
        ensures
            r.0 <= self@.len(),
            forall|j: int| 0 <= j < r.0 ==> lt_seq(self@[j].0, key@),
            r.1 <==> (r.0 < self@.len() && self@[r.0 as int].0 == key@),
            !r.1 ==> (r.0 < self@.len() ==> lt_seq(key@, self@[r.0 as int].0)),
    {
        proof {
            use_type_invariant(self);
        }
        let mut i: usize = 0;
        while i < self.entries.len()
            invariant
                i <= self.entries@.len(),
                self@.len() == self.entries@.len(),
                keys_sorted(self@),
                forall|j: int| 0 <= j < i ==> lt_seq(self@[j].0, key@),
            decreases self.entries.len() - i,
        {
            let c = compare_strings(&self.entries[i].0, key);
            assert(self@[i as int].0 == self.entries@[i as int].0@);
            if c == 0 {
                proof {
                    lemma_order_zero_iff_eq(self@[i as int].0, key@);
                }
                return (i, true);
            }
            if c > 0 {
                proof {
                    lemma_order_antisym(self@[i as int].0, key@);
                    lemma_order_zero_iff_eq(self@[i as int].0, key@);
                }
                return (i, false);
            }
            i = i + 1;
        }
        (i, false)
    }

    /// The value stored under `key`.
    pub fn get(&self, key: &str) -> (r: Option<i64>)
        ensures
            r == lookup(self@, key@),
    {
        proof {
            use_type_invariant(self);
        }
        let k = key.to_owned();
        let (i, found) = self.position(&k);
        if found {
            proof {
                let s = self@;
                lemma_lookup_at(s, key@, i as int);
            }
            Some(self.entries[i].1)
        } else {
            proof {
                let s = self@;
                assert forall|j: int| 0 <= j < s.len() implies s[j].0 != key@ by {
                    if j < i {
                        lemma_order_zero_iff_eq(s[j].0, key@);
                    } else if s[j].0 == key@ {
                        if j > i {
                            lemma_order_trans(key@, s[i as int].0, s[j].0);
                        }
                        lemma_order_zero_iff_eq(key@, key@);
                    }
                }
            }
            None
        }
    }

    /// Insert or overwrite `key`.
    pub fn insert(&mut self, key: String, value: i64)
        ensures
            lookup(final(self)@, key@) == Some(value),
            forall|k: Seq<char>| k != key@ ==> lookup(final(self)@, k) == lookup(old(self)@, k),
    {
        proof {
            use_type_invariant(&*self);
        }
        let (i, found) = self.position(&key);
        let ghost old_s = self@;
        let ghost kv = key@;
        let mut entries: Vec<(String, i64)> = Vec::new();
        std::mem::swap(&mut entries, &mut self.entries);
        if found {
            entries.set(i, (key, value));
        } else {
            entries.insert(i, (key, value));
        }
        let ghost new_s = entries@.map_values(|e: (String, i64)| (e.0@, e.1));
        proof {
            if found {
                assert(new_s =~= old_s.update(i as int, (kv, value)));
            } else {
                assert(new_s =~= old_s.insert(i as int, (kv, value)));
            }
            assert forall|a: int, b: int| 0 <= a < b < new_s.len() implies lt_seq(new_s[a].0, new_s[b].0) by {
                if found {
                    if a == i {
                        assert(new_s[a].0 == old_s[a].0);
                    }
                    if b == i {
                        assert(new_s[b].0 == old_s[b].0);
                    }
                } else {
                    if b < i {
                    } else if a > i {
                        assert(new_s[a] == old_s[a - 1]);
                        assert(new_s[b] == old_s[b - 1]);
                    } else if a == i {
                        if b - 1 > i {
                            lemma_order_trans(kv, old_s[i as int].0, old_s[b - 1].0);
                        }
                    } else if b == i {
                    } else {
                        assert(new_s[b] == old_s[b - 1]);
                        if b - 1 > a {
                            assert(lt_seq(old_s[a].0, old_s[b - 1].0));
                        } else {
                            assert(a == b - 1 && false);
                        }
                    }
                }
            }
        }
        self.entries = entries;
        proof {
            let s = self@;
            assert(s =~= new_s);
            lemma_lookup_sorted(s, kv);
            assert(s[i as int].0 == kv);
            assert forall|k: Seq<char>| k != kv implies lookup(s, k) == lookup(old_s, k) by {
                if exists|j: int| key_at(old_s, k, j) {
                    let j = choose|j: int| key_at(old_s, k, j);
                    let j2 = if found || j < i { j } else { j + 1 };
                    assert(s[j2].0 == k);
                    lemma_lookup_at(s, k, j2);
                    lemma_lookup_at(old_s, k, j);
                } else {
                    assert forall|j: int| 0 <= j < s.len() implies s[j].0 != k by {
                        if found || j < i {
                            if j != i {
                                assert(s[j] == old_s[j]);
                                assert(!key_at(old_s, k, j));
                            }
                        } else if j > i {
                            assert(s[j] == old_s[j - 1]);
                            assert(!key_at(old_s, k, j - 1));
                        }
                    }
                }
            }
        }
    }

    /// Remove `key`, if present.
    pub fn remove(&mut self, key: &str)
        ensures
            lookup(final(self)@, key@) == None::<i64>,
            forall|k: Seq<char>| k != key@ ==> lookup(final(self)@, k) == lookup(old(self)@, k),
    {
        proof {
            use_type_invariant(&*self);
        }
        let k = key.to_owned();
        let (i, found) = self.position(&k);
        let ghost old_s = self@;
        let ghost kv = k@;
        if found {
            let mut entries: Vec<(String, i64)> = Vec::new();
        std::mem::swap(&mut entries, &mut self.entries);
            entries.remove(i);
            let ghost new_s = entries@.map_values(|e: (String, i64)| (e.0@, e.1));
            proof {
                assert(new_s =~= old_s.remove(i as int));
                assert forall|a: int, b: int| 0 <= a < b < new_s.len() implies lt_seq(new_s[a].0, new_s[b].0) by {
                    let oa = if a < i { a } else { a + 1 };
                    let ob = if b < i { b } else { b + 1 };
                    assert(new_s[a] == old_s[oa]);
                    assert(new_s[b] == old_s[ob]);
                }
            }
            self.entries = entries;
        }
        proof {
            let s = self@;
            assert forall|j: int| 0 <= j < s.len() implies s[j].0 != kv by {
                if found {
                    let oj = if j < i { j } else { j + 1 };
                    assert(s[j] == old_s[oj]);
                    if oj != i {
                        lemma_distinct_keys(old_s, oj, i as int);
                    }
                } else {
                    if j < i {
                        lemma_order_zero_iff_eq(s[j].0, kv);
                    } else if s[j].0 == kv {
                        if j > i {
                            lemma_order_trans(kv, s[i as int].0, s[j].0);
                        }
                        lemma_order_zero_iff_eq(kv, kv);
                    }
                }
            }
            assert forall|kk: Seq<char>| kk != kv implies lookup(s, kk) == lookup(old_s, kk) by {
                if exists|j: int| key_at(old_s, kk, j) {
                    let j = choose|j: int| key_at(old_s, kk, j);
                    let j2 = if !found || j < i { j } else { j - 1 };
                    if found && j == i {
                        assert(false);
                    }
                    assert(s[j2].0 == kk);
                    lemma_lookup_at(s, kk, j2);
                    lemma_lookup_at(old_s, kk, j);
                } else {
                    assert forall|j: int| 0 <= j < s.len() implies s[j].0 != kk by {
                        let oj = if !found || j < i { j } else { j + 1 };
                        assert(s[j] == old_s[oj]);
                        assert(!key_at(old_s, kk, oj));
                    }
                }
            }
        }
    }

    /// An entry-for-entry copy.
    pub fn copy(&self) -> (r: IntMap)
        ensures
            r@ == self@,
    {
        proof {
            use_type_invariant(self);
        }
        let mut entries: Vec<(String, i64)> = Vec::new();
        let mut i: usize = 0;
        while i < self.entries.len()
            invariant
                i <= self.entries@.len(),
                entries@.len() == i,
                forall|k: int| 0 <= k < i ==> #[trigger] entries@[k].0@ == self.entries@[k].0@
                    && entries@[k].1 == self.entries@[k].1,
            decreases self.entries.len() - i,
        {
            let k = self.entries[i].0.clone();
            entries.push((k, self.entries[i].1));
            i = i + 1;
        }
        assert(entries@.map_values(|e: (String, i64)| (e.0@, e.1)) =~= self@);
        IntMap { entries }
    }
}

/// Keys of a sorted list are pairwise distinct.
pub proof fn lemma_distinct_keys(s: Seq<(Seq<char>, i64)>, a: int, b: int)
    requires
        keys_sorted(s),
        0 <= a < s.len(),
        0 <= b < s.len(),
        a != b,
    ensures
        s[a].0 != s[b].0,
{
    if a < b {
        assert(lt_seq(s[a].0, s[b].0));
        lemma_order_zero_iff_eq(s[a].0, s[b].0);
    } else {
        assert(lt_seq(s[b].0, s[a].0));
        lemma_order_zero_iff_eq(s[b].0, s[a].0);
    }
}

/// In a sorted list, the entry found at `j` is the one `lookup` returns.
pub proof fn lemma_lookup_at(s: Seq<(Seq<char>, i64)>, key: Seq<char>, j: int)
    requires
        keys_sorted(s),
        0 <= j < s.len(),
        s[j].0 == key,
    ensures
        lookup(s, key) == Some(s[j].1),
{
    assert(key_at(s, key, j));
    let c = choose|i: int| key_at(s, key, i);
    if c != j {
        lemma_distinct_keys(s, c, j);
    }
}

proof fn lemma_lookup_sorted(s: Seq<(Seq<char>, i64)>, key: Seq<char>)
    requires
        keys_sorted(s),
    ensures
        forall|j: int| 0 <= j < s.len() && s[j].0 == key ==> lookup(s, key) == Some(s[j].1),
{
    assert forall|j: int| 0 <= j < s.len() && s[j].0 == key implies lookup(s, key) == Some(s[j].1) by {
        lemma_lookup_at(s, key, j);
    }
}

/// The decisions a report expresses.
#[derive(Debug, PartialEq, Eq)]
pub struct DecisionSurface {
    pub overall_score: i64,
    pub total_files: i64,
    pub total_commits: i64,
    pub total_authors: i64,
    pub score_thresholds: IntMap,
    pub coupling_finding_counts: IntMap,
    pub categories: Vec<CategorySurface>,
    pub actions: Vec<ActionSurface>,
    pub top_hotspots: Vec<String>,
}

/// One category of a report with its metric scores.
#[derive(Debug, Clone, PartialEq, Eq)]
pub struct CategorySurface {
    pub name: String,
    pub score: Option<i64>,
    pub metrics: Vec<MetricSurface>,
}

/// `score: None` means *unscored*: a metric the analysis could not compute.
#[derive(Debug, Clone, PartialEq, Eq)]
pub struct MetricSurface {
    pub name: String,
    pub score: Option<i64>,
}

/// One recommendation and the report tab it points to.
#[derive(Debug, Clone, PartialEq, Eq)]
pub struct ActionSurface {
    pub target_tab: String,
    pub text: String,
}

/// An action's identity: its tab and its text.
pub open spec fn action_key(a: ActionSurface) -> (Seq<char>, Seq<char>) {
    (a.target_tab@, a.text@)
}

pub open spec fn action_keys(s: Seq<ActionSurface>) -> Seq<(Seq<char>, Seq<char>)> {
    s.map_values(|a: ActionSurface| action_key(a))
}

/// The derived order of `ActionSurface`: by tab, then by text.
pub open spec fn action_lt(a: (Seq<char>, Seq<char>), b: (Seq<char>, Seq<char>)) -> bool {
    lt_seq(a.0, b.0) || (a.0 == b.0 && lt_seq(a.1, b.1))
}

impl ActionSurface {
    pub fn new(target_tab: &str, text: &str) -> (r: ActionSurface)
        ensures
            r.target_tab@ == target_tab@,
            r.text@ == text@,
    {
        ActionSurface { target_tab: target_tab.to_owned(), text: text.to_owned() }
    }

    /// A field-for-field copy.
    pub fn copy(&self) -> (r: ActionSurface)
        ensures
            r.target_tab@ == self.target_tab@,
            r.text@ == self.text@,
    {
        ActionSurface { target_tab: self.target_tab.clone(), text: self.text.clone() }
    }

    /// Whether two actions are equal (same tab, same text).
    pub fn same(&self, other: &ActionSurface) -> (r: bool)
        ensures
            r == (action_key(*self) == action_key(*other)),
    {
        self.target_tab == other.target_tab && self.text == other.text
    }
}

impl MetricSurface {
    pub fn copy(&self) -> (r: MetricSurface)
        ensures
            r.name@ == self.name@,
            r.score == self.score,
    {
        MetricSurface { name: self.name.clone(), score: self.score }
    }
}

impl DecisionSurface {
    /// The surface of a repository that has never been baselined: no
    /// scores, no recommendations.
    pub fn empty() -> (s: DecisionSurface)
        ensures
            s.overall_score == 0,
            s.total_files == 0,
            s.total_commits == 0,
            s.total_authors == 0,
            s.score_thresholds@.len() == 0,
            s.coupling_finding_counts@.len() == 0,
            s.categories@.len() == 0,
            s.actions@.len() == 0,
            s.top_hotspots@.len() == 0,
    {
        DecisionSurface {
            overall_score: 0,
            total_files: 0,
            total_commits: 0,
            total_authors: 0,
            score_thresholds: IntMap::new(),
            coupling_finding_counts: IntMap::new(),
            categories: Vec::new(),
            actions: Vec::new(),
            top_hotspots: Vec::new(),
        }
    }
}

} // verus!
