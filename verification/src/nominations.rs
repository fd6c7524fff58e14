//! The rules for an account's list of nominated candidates.

use vstd::prelude::*;
use crate::primitives::CandidateId;

verus! {

/// Whether `targets` may stand as an account's nominations: at least one
/// candidate, at most `max_nominations`, none twice.
pub open spec fn valid_targets(targets: Seq<CandidateId>, max_nominations: usize) -> bool {
    1 <= targets.len() <= max_nominations && targets.no_duplicates()
}

/// Whether no candidate occurs twice in `targets`.
pub fn all_distinct(targets: &[CandidateId]) -> (distinct: bool)
    ensures
        distinct == targets@.no_duplicates(),
{
    let mut i: usize = 0;
    while i < targets.len()
        invariant
            i <= targets.len(),
            forall|a: int, b: int| 0 <= a < b < i ==> targets@[a] != targets@[b],
        decreases targets.len() - i,
    {
        let mut j: usize = 0;
        while j < i
            invariant
                j <= i < targets.len(),
                forall|a: int| 0 <= a < j ==> targets@[a] != targets@[i as int],
            decreases i - j,
        {
            if targets[j] == targets[i] {
                return false;
            }
            j = j + 1;
        }
        i = i + 1;
    }
    true
}

/// Decides [`valid_targets`].
pub fn check_targets(targets: &[CandidateId], max_nominations: usize) -> (valid: bool)
    ensures
        valid == valid_targets(targets@, max_nominations),
{
    1 <= targets.len() && targets.len() <= max_nominations && all_distinct(targets)
}

} // verus!
