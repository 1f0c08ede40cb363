//! A personal local-project registry: a store of tracked filesystem
//! projects with per-machine access statistics, a tag/recency query engine
//! with a deterministic three-key sort, an approximate name-suggestion
//! heuristic, and the decisions of the concurrent background refresh that
//! keeps each project's cached git timestamp fresh.
//!
//! Everything here is verified. The surrounding I/O — persistence, git
//! probing, prompting, GitHub access — lives with the binary, which calls
//! into this crate for every decision.

use vstd::prelude::*;

pub mod duration;
pub mod errors;
pub mod ext;
pub mod project;
pub mod query;
pub mod refresh;
pub mod registry;
pub mod scan;
pub mod strutil;
pub mod suggest;

verus! {

/// Name of the installed command-line binary, as shown in help text.
pub fn get_binary_name() -> (r: &'static str)
    ensures
        r@ == "pm"@,
{
    "pm"
}

} // verus!
