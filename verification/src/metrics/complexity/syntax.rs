//! The library's own syntax tree: the nodes of one parse, in preorder,
//! with kinds, named-ness, field labels and character ranges into the
//! source text. Every analysis reads this model, never the parser's tree.
use vstd::prelude::*;

use crate::text::{chars_eq_str, slice_vec, str_eq, string_of};

verus! {

/// One node of a parse.
#[derive(Debug)]
pub struct SyntaxNode {
    pub kind: String,
    pub named: bool,
    /// Whether the parser found a syntax error in this node's subtree.
    pub has_error: bool,
    /// Character range of the node's text.
    pub start: usize,
    pub end: usize,
    /// Zero-based row on which the node starts.
    pub row: usize,
    pub parent: Option<usize>,
    /// Child node indices, left to right.
    pub children: Vec<usize>,
    /// `(field name, child node index)`, in child order.
    pub fields: Vec<(String, usize)>,
    /// One past the last node index of this node's subtree.
    pub subtree_end: usize,
}

/// A parsed source file: its characters and its nodes, the root first.
#[derive(Debug)]
pub struct SyntaxTree {
    pub text: Vec<char>,
    pub nodes: Vec<SyntaxNode>,
}

impl SyntaxTree {
    /// Structural well-formedness: indices stay in range, parents precede
    /// their children, and a subtree is the index range that starts at its
    /// root.
    pub open spec fn wf(&self) -> bool {
        &&& self.nodes@.len() >= 1
        &&& self.nodes@[0].parent is None
        &&& forall|i: int| 0 <= i < self.nodes@.len() ==> #[trigger] self.node_wf(i)
    }

    pub open spec fn node_wf(&self, i: int) -> bool {
        let n = self.nodes@[i];
        &&& i < n.subtree_end <= self.nodes@.len()
        &&& n.start <= n.end <= self.text@.len()
        &&& (i > 0 ==> (n.parent matches Some(p) && p < i))
        &&& forall|k: int| 0 <= k < n.children@.len() ==> self.child_wf(i, #[trigger] n.children@[k])
        &&& forall|k: int| 0 <= k < n.fields@.len() ==> self.child_wf(i, #[trigger] n.fields@[k].1)
    }

    pub open spec fn child_wf(&self, i: int, c: usize) -> bool {
        &&& i < c < self.nodes@[i].subtree_end
        &&& self.nodes@[c as int].subtree_end <= self.nodes@[i].subtree_end
    }

    pub open spec fn len(&self) -> int {
        self.nodes@.len() as int
    }

    pub open spec fn valid(&self, n: int) -> bool {
        0 <= n < self.nodes@.len()
    }

    pub open spec fn kind(&self, n: int) -> Seq<char> {
        self.nodes@[n].kind@
    }

    pub open spec fn text_of(&self, n: int) -> Seq<char> {
        self.text@.subrange(self.nodes@[n].start as int, self.nodes@[n].end as int)
    }

    pub open spec fn kids(&self, n: int) -> Seq<usize> {
        self.nodes@[n].children@
    }

    pub open spec fn end_of(&self, n: int) -> int {
        self.nodes@[n].subtree_end as int
    }

    /// The child labelled `name` (the first one, as `child_by_field_name`).
    pub open spec fn field(&self, n: int, name: Seq<char>) -> Option<usize> {
        field_in(self.nodes@[n].fields@, name, 0)
    }

    /// The named children of `n`, in order.
    pub open spec fn named_kids(&self, n: int) -> Seq<usize> {
        named_in(self, self.kids(n))
    }

    /// The first child of `n`, at or after position `i`, of kind `k`.
    pub open spec fn child_of_kind_from(&self, n: int, k: Seq<char>, i: int) -> Option<int>
        decreases self.kids(n).len() - i,
    {
        if i < 0 || i >= self.kids(n).len() {
            None
        } else if self.kind(self.kids(n)[i] as int) == k {
            Some(self.kids(n)[i] as int)
        } else {
            self.child_of_kind_from(n, k, i + 1)
        }
    }

    /// The first child of `n` of kind `k`.
    pub open spec fn child_of_kind(&self, n: int, k: Seq<char>) -> Option<int> {
        self.child_of_kind_from(n, k, 0)
    }

    // ── Executable accessors ────────────────────────────────────────────

    pub fn node_count(&self) -> (r: usize)
        ensures
            r == self.nodes@.len(),
    {
        self.nodes.len()
    }

    /// Whether node `n` has kind `k`.
    pub fn kind_is(&self, n: usize, k: &str) -> (r: bool)
        requires
            self.valid(n as int),
        ensures
            r == (self.kind(n as int) == k@),
    {
        str_eq(self.nodes[n].kind.as_str(), k)
    }

    /// The kind of node `n`.
    pub fn kind_str(&self, n: usize) -> (r: &str)
        requires
            self.valid(n as int),
        ensures
            r@ == self.kind(n as int),
    {
        self.nodes[n].kind.as_str()
    }

    pub fn is_named(&self, n: usize) -> (r: bool)
        requires
            self.valid(n as int),
        ensures
            r == self.nodes@[n as int].named,
    {
        self.nodes[n].named
    }

    /// A copy of node `n`'s text.
    pub fn text(&self, n: usize) -> (r: Vec<char>)
        requires
            self.wf(),
            self.valid(n as int),
        ensures
            r@ == self.text_of(n as int),
    {
        assert(self.node_wf(n as int));
        slice_vec(self.text.as_slice(), self.nodes[n].start, self.nodes[n].end)
    }

    /// Whether node `n`'s text is exactly `s`.
    pub fn text_is(&self, n: usize, s: &str) -> (r: bool)
        requires
            self.wf(),
            self.valid(n as int),
        ensures
            r == (self.text_of(n as int) == s@),
    {
        let t = self.text(n);
        chars_eq_str(t.as_slice(), s)
    }

    /// Node `n`'s text as a `String`.
    pub fn text_string(&self, n: usize) -> (r: String)
        requires
            self.wf(),
            self.valid(n as int),
        ensures
            r@ == self.text_of(n as int),
    {
        let t = self.text(n);
        string_of(t.as_slice())
    }

    pub fn child_count(&self, n: usize) -> (r: usize)
        requires
            self.valid(n as int),
        ensures
            r == self.kids(n as int).len(),
    {
        self.nodes[n].children.len()
    }

    /// The `k`-th child of `n`.
    pub fn child(&self, n: usize, k: usize) -> (c: usize)
        requires
            self.wf(),
            self.valid(n as int),
            k < self.kids(n as int).len(),
        ensures
            c == self.kids(n as int)[k as int],
            n < c < self.end_of(n as int),
            self.valid(c as int),
            self.end_of(c as int) <= self.end_of(n as int),
    {
        assert(self.node_wf(n as int));
        let c = self.nodes[n].children[k];
        assert(self.child_wf(n as int, self.kids(n as int)[k as int]));
        c
    }

    /// The child of `n` labelled `name`.
    pub fn field_child(&self, n: usize, name: &str) -> (r: Option<usize>)
        requires
            self.wf(),
            self.valid(n as int),
        ensures
            r == self.field(n as int, name@),
            r matches Some(c) ==> n < c < self.end_of(n as int) && self.valid(c as int)
                && self.end_of(c as int) <= self.end_of(n as int),
    {
        assert(self.node_wf(n as int));
        let fs = &self.nodes[n].fields;
        let mut i: usize = 0;
        while i < fs.len()
            invariant
                self.wf(),
                self.valid(n as int),
                i <= fs@.len(),
                fs@ == self.nodes@[n as int].fields@,
                field_in(fs@, name@, 0) == field_in(fs@, name@, i as int),
            decreases fs.len() - i,
        {
            if str_eq(fs[i].0.as_str(), name) {
                let c = fs[i].1;
                assert(self.node_wf(n as int));
                assert(self.child_wf(n as int, fs@[i as int].1));
                return Some(c);
            }
            i = i + 1;
        }
        None
    }

    /// The named children of `n`, in order.
    pub fn named_children(&self, n: usize) -> (r: Vec<usize>)
        requires
            self.wf(),
            self.valid(n as int),
        ensures
            r@ == self.named_kids(n as int),
            forall|k: int| 0 <= k < r@.len() ==> n < #[trigger] r@[k] < self.end_of(n as int)
                && self.valid(r@[k] as int) && self.end_of(r@[k] as int) <= self.end_of(n as int),
    {
        let mut r: Vec<usize> = Vec::new();
        let cnt = self.child_count(n);
        let ghost ks = self.kids(n as int);
        let mut k: usize = 0;
        while k < cnt
            invariant
                self.wf(),
                self.valid(n as int),
                k <= cnt == ks.len(),
                ks == self.kids(n as int),
                r@ == named_in(self, ks.take(k as int)),
                forall|j: int| 0 <= j < r@.len() ==> n < #[trigger] r@[j] < self.end_of(n as int)
                    && self.valid(r@[j] as int) && self.end_of(r@[j] as int) <= self.end_of(n as int),
            decreases cnt - k,
        {
            let c = self.child(n, k);
            if self.is_named(c) {
                r.push(c);
            }
            proof {
                let t = ks.take(k + 1);
                assert(t.drop_last() =~= ks.take(k as int));
            }
            k = k + 1;
        }
        assert(ks.take(cnt as int) =~= ks);
        r
    }

    /// The first child of `n` of kind `k`.
    pub fn first_child_of_kind(&self, n: usize, k: &str) -> (r: Option<usize>)
        requires
            self.wf(),
            self.valid(n as int),
        ensures
            match r {
                Some(c) => self.child_of_kind(n as int, k@) == Some(c as int) && self.valid(c as int)
                    && n < c,
                None => self.child_of_kind(n as int, k@) is None,
            },
    {
        let cnt = self.child_count(n);
        let mut i: usize = 0;
        while i < cnt
            invariant
                self.wf(),
                self.valid(n as int),
                i <= cnt == self.kids(n as int).len(),
                self.child_of_kind(n as int, k@) == self.child_of_kind_from(n as int, k@, i as int),
            decreases cnt - i,
        {
            let c = self.child(n, i);
            if self.kind_is(c, k) {
                return Some(c);
            }
            i = i + 1;
        }
        None
    }

    pub fn parent_of(&self, n: usize) -> (r: Option<usize>)
        requires
            self.wf(),
            self.valid(n as int),
        ensures
            r == self.nodes@[n as int].parent,
            r matches Some(p) ==> p < n,
    {
        assert(self.node_wf(n as int));
        self.nodes[n].parent
    }

    pub fn end(&self, n: usize) -> (r: usize)
        requires
            self.wf(),
            self.valid(n as int),
        ensures
            r == self.end_of(n as int),
            n < r <= self.nodes@.len(),
    {
        assert(self.node_wf(n as int));
        self.nodes[n].subtree_end
    }

    /// The zero-based row on which `n` starts.
    pub fn row(&self, n: usize) -> (r: usize)
        requires
            self.valid(n as int),
        ensures
            r == self.nodes@[n as int].row,
    {
        self.nodes[n].row
    }
}

/// First field entry at or after `i` labelled `name`.
pub open spec fn field_in(fs: Seq<(String, usize)>, name: Seq<char>, i: int) -> Option<usize>
    decreases fs.len() - i,
{
    if i < 0 || i >= fs.len() {
        None
    } else if fs[i].0@ == name {
        Some(fs[i].1)
    } else {
        field_in(fs, name, i + 1)
    }
}

/// The elements of `ks` that are named nodes of `t`.
pub open spec fn named_in(t: &SyntaxTree, ks: Seq<usize>) -> Seq<usize>
    decreases ks.len(),
{
    if ks.len() == 0 {
        seq![]
    } else {
        named_in(t, ks.drop_last()) + if t.nodes@[ks.last() as int].named {
            seq![ks.last()]
        } else {
            seq![]
        }
    }
}

} // verus!
