//! The reduction matcher: given the working stack and a rule-search cursor,
//! find the lowest-indexed rule at or after the cursor whose right side is a
//! suffix of the stack.
//!
//! The executable search is pinned to the model's [`find_from`], and
//! [`lemma_lowest_rule_wins`] states the observable tie-break contract: of
//! two applicable rules, the earlier-registered one is always the one found.

use vstd::prelude::*;

use crate::grammar::Prods;
use crate::machine::find_from;
use crate::machine::matches_at;
use crate::machine::Ruleset;

verus! {

/// What the search returns: the first match at or after `from`, with no
/// applicable rule passed over on the way there.
pub proof fn lemma_find_from_spec(rules: Ruleset, stack: Seq<char>, from: int)
    requires
        0 <= from,
    ensures
        find_from(rules, stack, from) matches Some(r) ==> {
            &&& from <= r < rules.len()
            &&& matches_at(rules, stack, r)
            &&& forall|j: int| from <= j < r ==> !matches_at(rules, stack, j)
        },
        find_from(rules, stack, from) is None ==> forall|j: int|
            from <= j < rules.len() ==> !matches_at(rules, stack, j),
    decreases rules.len() - from,
{
    if from < rules.len() && !matches_at(rules, stack, from) {
        lemma_find_from_spec(rules, stack, from + 1);
    }
}

/// Tie-break stability: whenever some rule at or after `from` is applicable,
/// the search succeeds, and never with a higher index than any applicable
/// rule — the earliest-registered match always wins.
pub proof fn lemma_lowest_rule_wins(rules: Ruleset, stack: Seq<char>, from: int, i: int)
    requires
        0 <= from <= i < rules.len(),
        matches_at(rules, stack, i),
    ensures
        find_from(rules, stack, from) matches Some(r) && from <= r <= i,
{
    lemma_find_from_spec(rules, stack, from);
}

impl Prods {
    /// Scans the rules in ascending index order starting at `from` and
    /// returns the first whose right side equals the trailing subsequence of
    /// `stack`, or `None` when none at or after `from` matches.
    pub fn find_reduction(&self, stack: &Vec<char>, from: usize) -> (found: Option<usize>)
        ensures
            found matches Some(r) ==> find_from(self.rules_model(), stack@, from as int) == Some(r as int),
            found is None ==> find_from(self.rules_model(), stack@, from as int) is None,
    {
        let mut i: usize = from;
        while i < self.rules.len()
            invariant
                from <= i,
                find_from(self.rules_model(), stack@, from as int) == find_from(
                    self.rules_model(),
                    stack@,
                    i as int,
                ),
            decreases self.rules@.len() - i,
        {
            if is_suffix(&self.rules[i].1, stack) {
                return Some(i);
            }
            i += 1;
        }
        None
    }
}

/// Whether `part` equals the trailing subsequence of `whole`.
fn is_suffix(part: &Vec<char>, whole: &Vec<char>) -> (b: bool)
    ensures
        b == part@.is_suffix_of(whole@),
{
    if part.len() > whole.len() {
        return false;
    }
    let off: usize = whole.len() - part.len();
    let mut j: usize = 0;
    while j < part.len()
        invariant
            0 <= j <= part@.len(),
            part@.len() <= whole@.len(),
            off == whole@.len() - part@.len(),
            forall|k: int| 0 <= k < j ==> part@[k] == whole@[off + k],
        decreases part@.len() - j,
    {
        if whole[off + j] != part[j] {
            proof {
                let tail = whole@.subrange(off as int, whole@.len() as int);
                assert(tail[j as int] == whole@[off + j]);
            }
            return false;
        }
        j += 1;
    }
    proof {
        assert(part@ =~= whole@.subrange(off as int, whole@.len() as int));
    }
    true
}

} // verus!
