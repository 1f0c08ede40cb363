use vstd::prelude::*;

use crate::project::ProjectView;
use crate::registry::Config;
use crate::strutil::{prefix_of, seq_contains_sub, str_contains, str_prefix};

verus! {

/// The Unicode lowercase mapping of a character sequence.
pub uninterp spec fn lower_of(s: Seq<char>) -> Seq<char>;

/// Relies on str::to_lowercase: the Unicode lowercase mapping of the
/// string, a function of its characters alone; the empty string stays
/// empty.
#[verifier::external_body]
fn to_lowercase_string(s: &str) -> (r: String)
    ensures
        r@ == lower_of(s@),
        s@.len() == 0 ==> r@.len() == 0,
{
    s.to_lowercase()
}

/// The Suggestion Engine's similarity heuristic, an OR of three conditions:
/// the candidate contains the target case-insensitively, the target
/// contains the candidate, or their first three characters agree
/// case-insensitively (shorter names compare on their full length).
/// Deliberately not edit-distance-based.
pub open spec fn is_similar(name: Seq<char>, target: Seq<char>) -> bool {
    ||| seq_contains_sub(lower_of(name), lower_of(target))
    ||| seq_contains_sub(lower_of(target), lower_of(name))
    ||| lower_of(prefix_of(name, 3)) == lower_of(prefix_of(target, 3))
}

/// Run-time counterpart of [`is_similar`].
pub fn name_is_similar(name: &str, target: &str) -> (r: bool)
    ensures
        r == is_similar(name@, target@),
{
    let nl = to_lowercase_string(name);
    let tl = to_lowercase_string(target);
    if str_contains(nl.as_str(), tl.as_str()) {
        return true;
    }
    if str_contains(tl.as_str(), nl.as_str()) {
        return true;
    }
    let np = to_lowercase_string(str_prefix(name, 3));
    let tp = to_lowercase_string(str_prefix(target, 3));
    np == tp
}

/// Names similar to `target`, in registry iteration order.
pub open spec fn spec_suggestions(s: Seq<ProjectView>, target: Seq<char>) -> Seq<Seq<char>>
    decreases s.len(),
{
    if s.len() == 0 {
        Seq::empty()
    } else {
        let prev = spec_suggestions(s.drop_last(), target);
        if is_similar(s.last().name, target) {
            prev.push(s.last().name)
        } else {
            prev
        }
    }
}

/// The Suggestion Engine: names of tracked projects that the similarity
/// heuristic accepts for `target`, used when an exact lookup fails.
pub fn suggest_similar_projects(config: &Config, target: &str) -> (r: Vec<String>)
    ensures
        r.deep_view() == spec_suggestions(config@.projects, target@),
{
    let ghost s = config@.projects;
    let mut out: Vec<String> = Vec::new();
    proof {
        assert(s.take(0) =~= Seq::<ProjectView>::empty());
    }
    let mut i: usize = 0;
    while i < config.projects.len()
        invariant
            s == config@.projects,
            0 <= i <= config.projects.len(),
            out.deep_view() == spec_suggestions(s.take(i as int), target@),
        decreases config.projects.len() - i,
    {
        proof {
            assert(s.take(i as int + 1).drop_last() =~= s.take(i as int));
            assert(s.take(i as int + 1).last() == s[i as int]);
        }
        if name_is_similar(config.projects[i].name.as_str(), target) {
            out.push(config.projects[i].name.clone());
            proof {
                assert(out.deep_view() =~= spec_suggestions(s.take(i as int), target@).push(
                    s[i as int].name,
                ));
            }
        }
        i += 1;
    }
    proof {
        assert(s.take(s.len() as int) =~= s);
    }
    out
}

} // verus!
