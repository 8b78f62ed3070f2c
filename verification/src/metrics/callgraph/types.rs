//! The call-graph section's hub rows.
use vstd::prelude::*;

verus! {

/// One function-hub row: a call target and how many distinct functions
/// call it through resolved (or same-file) edges.
#[derive(Debug, Clone, PartialEq, Eq)]
pub struct FunctionHub {
    pub path: String,
    pub name: String,
    pub resolved_in_degree: usize,
}

} // verus!
