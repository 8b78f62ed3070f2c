//! The decisions behind making a corpus repository present under the
//! corpus root: which URLs may be cloned, and what to do for an entry.
use vstd::prelude::*;

use crate::field_test::corpus::CorpusEntry;
use crate::text::{is_prefix, starts_with_str};

verus! {

/// The transports the harness will clone from. `ext::` and `fd::` run
/// commands, and a bare path or a `-`-prefixed value can smuggle a flag.
pub open spec fn allowed_url(url: Seq<char>) -> bool {
    ||| is_prefix(url, "https://"@)
    ||| is_prefix(url, "ssh://"@)
    ||| is_prefix(url, "git@"@)
    ||| is_prefix(url, "file://"@)
}

pub fn is_allowed_url(url: &str) -> (r: bool)
    ensures
        r == allowed_url(url@),
{
    let u = crate::text::chars_of(url);
    starts_with_str(u.as_slice(), "https://") || starts_with_str(u.as_slice(), "ssh://")
        || starts_with_str(u.as_slice(), "git@") || starts_with_str(u.as_slice(), "file://")
}

/// What to do with one entry whose checkout may or may not exist yet.
#[derive(Debug, PartialEq, Eq)]
pub enum FetchStep {
    /// A checkout exists: check that it holds the pin.
    Validate,
    /// Absent and the manifest has no URL: a harness error, not a skip.
    MissingWithoutUrl,
    /// Absent and the URL's transport is not allowed.
    ForbiddenUrl,
    /// Absent: clone the URL.
    Clone,
}

pub fn fetch_step(entry: &CorpusEntry, present: bool) -> (r: FetchStep)
    ensures
        present ==> r == FetchStep::Validate,
        !present ==> match entry.url {
            None => r == FetchStep::MissingWithoutUrl,
            Some(u) => r == if allowed_url(u@) { FetchStep::Clone } else { FetchStep::ForbiddenUrl },
        },
{
    if present {
        return FetchStep::Validate;
    }
    match &entry.url {
        None => FetchStep::MissingWithoutUrl,
        Some(u) => if is_allowed_url(u.as_str()) {
            FetchStep::Clone
        } else {
            FetchStep::ForbiddenUrl
        },
    }
}

/// Why a checkout is not the repository an entry declares.
#[derive(Debug, PartialEq, Eq)]
pub enum RepositoryProblem {
    /// `git rev-parse --is-inside-work-tree` did not answer `true`.
    NotAWorkTree,
    /// The object database does not hold the pinned commit.
    MissingPin,
}

/// Whether a checkout is the repository its entry declares, from what git
/// answered: it must be a working tree, and it must hold the pin (the
/// pin, not the remote URL, is the repository's identity).
pub fn validate_repository(inside_work_tree: &str, holds_pin: bool) -> (r: Result<(), RepositoryProblem>)
    ensures
        inside_work_tree@ != "true"@ ==> r == Err::<(), RepositoryProblem>(RepositoryProblem::NotAWorkTree),
        inside_work_tree@ == "true"@ && !holds_pin ==> r == Err::<(), RepositoryProblem>(RepositoryProblem::MissingPin),
        inside_work_tree@ == "true"@ && holds_pin ==> r == Ok::<(), RepositoryProblem>(()),
{
    if !crate::text::str_eq(inside_work_tree, "true") {
        return Err(RepositoryProblem::NotAWorkTree);
    }
    if !holds_pin {
        return Err(RepositoryProblem::MissingPin);
    }
    Ok(())
}

/// Cloning is allowed from `https://`, `ssh://`, `git@` and `file://`
/// URLs, whatever follows the scheme; never from a value that begins with
/// `-` (a flag) or uses the command-running `ext::` and `fd::` transports.
pub proof fn lemma_allowed_transports(rest: Seq<char>, u: Seq<char>)
    ensures
        allowed_url("https://"@ + rest),
        allowed_url("ssh://"@ + rest),
        allowed_url("git@"@ + rest),
        allowed_url("file://"@ + rest),
        is_prefix(u, "-"@) ==> !allowed_url(u),
        is_prefix(u, "ext::"@) ==> !allowed_url(u),
        is_prefix(u, "fd::"@) ==> !allowed_url(u),
{
    reveal_strlit("https://");
    reveal_strlit("ssh://");
    reveal_strlit("git@");
    reveal_strlit("file://");
    reveal_strlit("-");
    reveal_strlit("ext::");
    reveal_strlit("fd::");
    assert(("https://"@ + rest).subrange(0, 8) =~= "https://"@);
    assert(("ssh://"@ + rest).subrange(0, 6) =~= "ssh://"@);
    assert(("git@"@ + rest).subrange(0, 4) =~= "git@"@);
    assert(("file://"@ + rest).subrange(0, 7) =~= "file://"@);
    if u.len() > 0 {
        if is_prefix(u, "https://"@) {
            assert(u[0] == u.subrange(0, 8)[0]);
        }
        if is_prefix(u, "ssh://"@) {
            assert(u[0] == u.subrange(0, 6)[0]);
        }
        if is_prefix(u, "git@"@) {
            assert(u[0] == u.subrange(0, 4)[0]);
        }
        if is_prefix(u, "file://"@) {
            assert(u[0] == u.subrange(0, 7)[0]);
        }
        if is_prefix(u, "-"@) {
            assert(u[0] == u.subrange(0, 1)[0]);
        }
        if is_prefix(u, "ext::"@) {
            assert(u[0] == u.subrange(0, 5)[0]);
        }
        if is_prefix(u, "fd::"@) {
            assert(u[0] == u.subrange(0, 4)[0]);
            assert(u[1] == u.subrange(0, 4)[1]);
            if is_prefix(u, "file://"@) {
                assert(u[1] == u.subrange(0, 7)[1]);
            }
        }
    }
}

} // verus!
