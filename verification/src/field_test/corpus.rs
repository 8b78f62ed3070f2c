//! The pinned corpus of repositories the harness runs over.
use vstd::prelude::*;

use crate::text::{chars_of, join_path, path_join, push_str, str_eq, string_of};

verus! {

/// One pinned repository of the corpus.
#[derive(Debug, Clone, PartialEq, Eq)]
pub struct CorpusEntry {
    pub name: String,
    /// Path relative to the corpus root.
    pub path: String,
    /// Commit the analysis is pinned to.
    pub pin: String,
    pub lang: String,
    /// Clone URL of a publicly reachable repository.
    pub url: Option<String>,
}

/// Which corpus entries a run covers.
#[derive(Debug, Clone, Copy, PartialEq, Eq)]
pub enum Scope {
    /// Every entry.
    All,
    /// Only entries with a `url`.
    Public,
}

/// A scope value that is neither `all` nor `public`.
#[derive(Debug)]
pub struct UnknownScope {
    pub raw: String,
}

impl UnknownScope {
    pub fn message(&self) -> (m: String)
        ensures
            m@ == "BARAD_DUR_CORPUS_SCOPE must be `all` or `public`, got `"@ + self.raw@ + "`"@,
    {
        let mut out = chars_of("BARAD_DUR_CORPUS_SCOPE must be `all` or `public`, got `");
        push_str(&mut out, self.raw.as_str());
        push_str(&mut out, "`");
        string_of(out.as_slice())
    }
}

pub open spec fn scope_spec(raw: Option<Seq<char>>) -> Option<Scope> {
    match raw {
        None => Some(Scope::All),
        Some(s) => if s == "all"@ {
            Some(Scope::All)
        } else if s == "public"@ {
            Some(Scope::Public)
        } else {
            None
        },
    }
}

/// Parse the scope setting; unset means the full corpus.
pub fn parse_scope(raw: Option<&str>) -> (r: Result<Scope, UnknownScope>)
    ensures
        match r {
            Ok(s) => scope_spec(match raw { Some(x) => Some(x@), None => None }) == Some(s),
            Err(e) => raw matches Some(x) && scope_spec(Some(x@)) is None && e.raw@ == x@,
        },
{
    match raw {
        None => Ok(Scope::All),
        Some(s) => if str_eq(s, "all") {
            Ok(Scope::All)
        } else if str_eq(s, "public") {
            Ok(Scope::Public)
        } else {
            Err(UnknownScope { raw: s.to_owned() })
        },
    }
}

/// Whether `scope` covers `entry`.
pub open spec fn covered(entry: CorpusEntry, scope: Scope) -> bool {
    scope == Scope::All || entry.url is Some
}

/// The entries of `s` that `scope` covers, in order.
pub open spec fn covered_entries(s: Seq<CorpusEntry>, scope: Scope) -> Seq<CorpusEntry>
    decreases s.len(),
{
    if s.len() == 0 {
        seq![]
    } else {
        covered_entries(s.drop_last(), scope) + if covered(s.last(), scope) {
            seq![s.last()]
        } else {
            seq![]
        }
    }
}

/// Entries covered by `scope`, in manifest order.
pub fn select_entries(entries: Vec<CorpusEntry>, scope: Scope) -> (out: Vec<CorpusEntry>)
    ensures
        out@ == covered_entries(entries@, scope),
{
    let ghost all = entries@;
    let mut out: Vec<CorpusEntry> = Vec::new();
    for e in it: entries
        invariant
            it.seq() == all,
            out@ == covered_entries(all.take(it.index() as int), scope),
    {
        let ghost k = it.index();
        let keep = match scope {
            Scope::All => true,
            Scope::Public => e.url.is_some(),
        };
        let ghost ev = e;
        if keep {
            out.push(e);
        }
        proof {
            let t = all.take(k + 1);
            assert(t.drop_last() =~= all.take(k as int));
            assert(t.last() == ev);
        }
    }
    assert(all.take(all.len() as int) =~= all);
    out
}

/// Absolute path to a corpus entry's repository.
pub fn resolve_path(entry: &CorpusEntry, root: &str) -> (p: String)
    ensures
        p@ == path_join(root@, entry.path@),
{
    let rel = chars_of(entry.path.as_str());
    join_path(root, rel.as_slice())
}

/// A manifest that declares no repository.
#[derive(Debug)]
pub struct EmptyCorpus;

impl EmptyCorpus {
    pub fn message(&self) -> (m: String)
        ensures
            m@ == "corpus manifest declares no [[repo]] entries"@,
    {
        String::from_str("corpus manifest declares no [[repo]] entries")
    }
}

/// Accept the entries a manifest declares; a manifest with none is an error.
pub fn check_corpus(entries: Vec<CorpusEntry>) -> (r: Result<Vec<CorpusEntry>, EmptyCorpus>)
    ensures
        match r {
            Ok(v) => v@ == entries@ && entries@.len() > 0,
            Err(_) => entries@.len() == 0,
        },
{
    if entries.len() == 0 {
        Err(EmptyCorpus)
    } else {
        Ok(entries)
    }
}

/// The scope is the whole corpus when unset or `all`, the entries with a
/// public URL for `public`, and nothing else is a scope.
pub proof fn lemma_scopes(raw: Option<Seq<char>>)
    ensures
        raw is None ==> scope_spec(raw) == Some(Scope::All),
        scope_spec(raw) is Some <==> (raw is None || raw == Some("all"@) || raw == Some("public"@)),
        scope_spec(raw) == Some(Scope::Public) ==> raw == Some("public"@),
        raw == Some("all"@) ==> scope_spec(raw) == Some(Scope::All),
{
}

} // verus!
