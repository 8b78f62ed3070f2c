//! Where committed baselines live.
use vstd::prelude::*;

use crate::text::{chars_of, join_path, path_join, push_str};

verus! {

pub open spec fn baseline_file(name: Seq<char>) -> Seq<char> {
    name + ".surface.json"@
}

/// Where a repository's committed baseline lives.
pub fn baseline_path(dir: &str, name: &str) -> (p: String)
    ensures
        p@ == path_join(dir@, baseline_file(name@)),
{
    let mut file = chars_of(name);
    push_str(&mut file, ".surface.json");
    join_path(dir, file.as_slice())
}

} // verus!
