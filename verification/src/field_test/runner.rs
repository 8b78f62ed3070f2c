//! Folding the measured passes over one pinned repository into an outcome,
//! flagging nondeterministic output.
use vstd::prelude::*;

use crate::field_test::diff::{diff_spec, diff_surfaces, SurfaceDiff};
use crate::field_test::surface::DecisionSurface;
use crate::sorted::str_views;
use crate::text::{chars_of, decimal, join_path, path_join, push_all, push_str, usize_chars};

verus! {

/// Fixed lower bound of the history every corpus analysis covers.
pub const CORPUS_HISTORY_SINCE: &'static str = "2026-03-01";

/// The result of analysing one corpus repository.
#[derive(Debug)]
pub struct RepoOutcome {
    pub name: String,
    pub surface: DecisionSurface,
    /// `Some` when two passes over identical input disagreed.
    pub nondeterminism: Option<SurfaceDiff>,
}

/// Fold the measured passes into an outcome: the first pass is the
/// surface, and a difference between the first two is nondeterminism.
pub fn outcome_from_passes(name: &str, passes: Vec<DecisionSurface>) -> (r: RepoOutcome)
    requires
        passes@.len() >= 1,
    ensures
        r.name@ == name@,
        r.surface == passes@[0],
        match r.nondeterminism {
            Some(d) => passes@.len() >= 2 && diff_spec(passes@[0], passes@[1]).len() > 0
                && str_views(d.changes@) == diff_spec(passes@[0], passes@[1]),
            None => passes@.len() < 2 || diff_spec(passes@[0], passes@[1]).len() == 0,
        },
{
    let mut passes = passes;
    let ghost all = passes@;
    let nondeterminism = if passes.len() >= 2 {
        let d = diff_surfaces(&passes[0], &passes[1]);
        if d.is_empty() {
            None
        } else {
            Some(d)
        }
    } else {
        None
    };
    let surface = passes.remove(0);
    RepoOutcome { name: name.to_owned(), surface, nondeterminism }
}

/// File name of one pass's archived report.
pub open spec fn archive_name(name: Seq<char>, pass: u8) -> Seq<char> {
    name + "-"@ + decimal(pass as int) + ".json"@
}

/// Where one repository/pass's full report is archived.
pub fn archive_path(archive: &str, name: &str, pass: u8) -> (p: String)
    ensures
        p@ == path_join(archive@, archive_name(name@, pass)),
{
    let mut file = chars_of(name);
    push_str(&mut file, "-");
    let d = usize_chars(pass as usize);
    push_all(&mut file, d.as_slice());
    push_str(&mut file, ".json");
    join_path(archive, file.as_slice())
}

/// The arguments of one `analyze` run over the checkout at `target`.
pub fn analyze_args(target: &str) -> (args: Vec<String>)
    ensures
        args@.len() == 6,
        args@[0]@ == "analyze"@,
        args@[1]@ == target@,
        args@[2]@ == "--json"@,
        args@[3]@ == "--no-cache"@,
        args@[4]@ == "--since"@,
        args@[5]@ == CORPUS_HISTORY_SINCE@,
{
    let mut args: Vec<String> = Vec::new();
    args.push(String::from_str("analyze"));
    args.push(target.to_owned());
    args.push(String::from_str("--json"));
    args.push(String::from_str("--no-cache"));
    args.push(String::from_str("--since"));
    args.push(String::from_str(CORPUS_HISTORY_SINCE));
    args
}

/// Number of passes actually measured: at least one.
pub fn pass_count(passes: u8) -> (n: u8)
    ensures
        n == if passes == 0 { 1 } else { passes },
{
    if passes == 0 { 1 } else { passes }
}

} // verus!
