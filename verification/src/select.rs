//! Ranking and selection of discovered candidates.
//!
//! Each discovered binary becomes a [`Component`] carrying its path and an
//! optional comparison key.  The selector returns the path of the maximum
//! under the key order; among candidates whose keys tie, the one
//! encountered last wins — which one that is may vary with directory
//! enumeration order, a deliberately preserved ambiguity.

use vstd::prelude::*;

use crate::parse::{copy_range, parse_rustc_date, parse_result_matches, spec_parse_captures};
use crate::version::{dv_lt, DateVersion};

verus! {

/// A discovered component binary and the comparison key probed for it
/// (absent when the probe failed entirely).
#[derive(Debug, Clone, PartialEq, Eq)]
pub struct Component {
    pub date_vers: Option<DateVersion>,
    pub path: Vec<u8>,
}

impl Component {
    /// Builds a candidate from its probed key and its path.
    pub fn new(date_vers: Option<DateVersion>, path: Vec<u8>) -> (r: Component)
        ensures
            r.date_vers == date_vers,
            r.path == path,
    {
        Component { date_vers, path }
    }
}

/// The key order lifted to optional keys: an absent key sorts below any
/// present key.
pub open spec fn opt_dv_lt(a: Option<DateVersion>, b: Option<DateVersion>) -> bool {
    match (a, b) {
        (Option::None, Option::None) => false,
        (Option::None, Option::Some(_)) => true,
        (Option::Some(_), Option::None) => false,
        (Option::Some(x), Option::Some(y)) => dv_lt(x, y),
    }
}

/// A candidate without a key ranks below any candidate with one: the
/// absent-sorts-lowest rule applied at the candidate level.
pub proof fn lemma_keyless_ranks_lowest(a: Option<DateVersion>, b: Option<DateVersion>)
    requires
        a is None,
        b is Some,
    ensures
        opt_dv_lt(a, b),
        !opt_dv_lt(b, a),
{
}

/// The winning position in a nonempty candidate list: the last index whose
/// key is not exceeded by any other — what a stable ascending sort leaves
/// at the end.
pub open spec fn best_index(s: Seq<Component>) -> int
    decreases s.len(),
{
    if s.len() <= 1 {
        0
    } else {
        let b = best_index(s.drop_last());
        if opt_dv_lt(s.last().date_vers, s[b].date_vers) {
            b
        } else {
            s.len() - 1
        }
    }
}

proof fn lemma_best_index_bounds(s: Seq<Component>)
    requires
        s.len() > 0,
    ensures
        0 <= best_index(s) < s.len(),
    decreases s.len(),
{
    if s.len() > 1 {
        lemma_best_index_bounds(s.drop_last());
    }
}

/// Decides the lifted key order between two optional keys.
pub fn opt_dv_lt_exec(a: &Option<DateVersion>, b: &Option<DateVersion>) -> (r: bool)
    ensures
        r == opt_dv_lt(*a, *b),
{
    match (a, b) {
        (Option::None, Option::None) => false,
        (Option::None, Option::Some(_)) => true,
        (Option::Some(_), Option::None) => false,
        (Option::Some(x), Option::Some(y)) => crate::version::dv_lt_exec(x, y),
    }
}

/// Picks the path of the best-ranked candidate, `None` only for an empty
/// list.  Ties go to the candidate encountered last.
pub fn select_best(components: &Vec<Component>) -> (r: Option<Vec<u8>>)
    ensures
        match r {
            Option::None => components@.len() == 0,
            Option::Some(p) => components@.len() > 0 && p@ == components@[best_index(
                components@,
            )].path@,
        },
{
    if components.len() == 0 {
        return None;
    }
    let mut best: usize = 0;
    let mut i: usize = 1;
    proof {
        assert(components@.take(1).len() == 1);
    }
    while i < components.len()
        invariant
            0 < i <= components@.len(),
            best < i,
            best == best_index(components@.take(i as int)),
        decreases components@.len() - i,
    {
        if !opt_dv_lt_exec(&components[i].date_vers, &components[best].date_vers) {
            best = i;
        }
        i = i + 1;
        proof {
            let t = components@.take(i as int);
            assert(t.drop_last() =~= components@.take(i - 1));
            assert(t.last() == components@[i - 1]);
            assert(t[best_index(t.drop_last())] == components@[best_index(t.drop_last())]) by {
                lemma_best_index_bounds(t.drop_last());
            }
        }
    }
    proof {
        assert(components@.take(components@.len() as int) =~= components@);
    }
    let path = &components[best].path;
    Some(copy_range(path.as_slice(), 0, path.len()))
}

/// Builds the ranking entry for one discovered binary from the probe's
/// captured output, `None` standing for a probe that could not run the
/// co-located compiler at all: such a candidate stays in the set with no
/// key and so ranks below every keyed candidate.
pub fn candidate_from_probe(path: Vec<u8>, output: Option<&[u8]>) -> (r: Component)
    ensures
        r.path == path,
        match output {
            Option::None => r.date_vers is None,
            Option::Some(o) => parse_result_matches(r.date_vers, spec_parse_captures(o@)),
        },
{
    let date_vers = match output {
        Option::Some(o) => parse_rustc_date(o),
        Option::None => None,
    };
    Component { date_vers, path }
}

} // verus!
