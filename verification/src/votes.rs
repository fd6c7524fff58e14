//! The vote aggregator: the vote weight that each candidate has gathered.

use std::collections::HashMap;
use vstd::prelude::*;
use vstd::std_specs::hash::*;
use vstd::std_specs::iter::IteratorSpec;
use crate::primitives::{Balance, CandidateId};

verus! {

broadcast use vstd::std_specs::hash::group_hash_axioms;

/// The weight of one candidate after a change of stake or nominations: what
/// it loses is taken first, never below zero, and what it gains is added
/// next, never beyond the largest amount.
pub open spec fn tally(weight: nat, lose: nat, gain: nat) -> nat {
    let reduced = if weight >= lose {
        (weight - lose) as nat
    } else {
        0
    };
    if reduced + gain <= Balance::MAX {
        reduced + gain
    } else {
        Balance::MAX as nat
    }
}

/// What a holder of `amount` contributes to `candidate` with the given nominations.
pub open spec fn backing(amount: nat, targets: Seq<CandidateId>, candidate: CandidateId) -> nat {
    if targets.contains(candidate) {
        amount
    } else {
        0
    }
}

/// The weights after one holder's stake and nominations changed from
/// (`old_amount`, `old_targets`) to (`new_amount`, `new_targets`). A candidate
/// named only before loses `old_amount`, one named only after gains
/// `new_amount`, and one named both times moves by the difference.
pub open spec fn votes_after(
    votes: Map<CandidateId, nat>,
    old_amount: nat,
    old_targets: Seq<CandidateId>,
    new_amount: nat,
    new_targets: Seq<CandidateId>,
) -> Map<CandidateId, nat> {
    Map::total(
        |c: CandidateId|
            tally(
                votes[c],
                backing(old_amount, old_targets, c),
                backing(new_amount, new_targets, c),
            ),
    )
}

/// The aggregate vote weight of every candidate. A candidate without an
/// entry has weight zero.
pub struct Votes {
    weights: HashMap<CandidateId, Balance>,
}

impl View for Votes {
    type V = Map<CandidateId, nat>;

    /// The weight of every candidate, as a total map.
    closed spec fn view(&self) -> Map<CandidateId, nat> {
        Map::total(
            |c: CandidateId|
                if self.weights@.contains_key(c) {
                    self.weights@[c] as nat
                } else {
                    0
                },
        )
    }
}

/// The first `n + 1` of `targets` name `candidate` exactly if the first `n`
/// do or the next one is `candidate`.
pub proof fn lemma_next_named(targets: Seq<CandidateId>, n: int, candidate: CandidateId)
    requires
        0 <= n < targets.len(),
    ensures
        targets.take(n + 1).contains(candidate) <==> targets.take(n).contains(candidate)
            || targets[n] == candidate,
{
    let done = targets.take(n);
    let now = targets.take(n + 1);
    if done.contains(candidate) {
        let k = choose|k: int| 0 <= k < done.len() && done[k] == candidate;
        assert(now[k] == candidate);
    }
    if now.contains(candidate) && targets[n] != candidate {
        let k = choose|k: int| 0 <= k < now.len() && now[k] == candidate;
        assert(done[k] == candidate);
    }
    assert(now[n] == targets[n]);
}

/// Whether `candidate` occurs in `targets`.
pub fn names(targets: &[CandidateId], candidate: CandidateId) -> (found: bool)
    ensures
        found == targets@.contains(candidate),
{
    let mut i: usize = 0;
    while i < targets.len()
        invariant
            i <= targets.len(),
            forall|j: int| 0 <= j < i ==> targets@[j] != candidate,
        decreases targets.len() - i,
    {
        if targets[i] == candidate {
            return true;
        }
        i = i + 1;
    }
    false
}

impl Votes {
    /// No candidate has any weight.
    pub fn new() -> (votes: Votes)
        ensures
            votes@ == Map::total(|c: CandidateId| 0nat),
    {
        let votes = Votes { weights: HashMap::new() };
        assert(votes@ =~= Map::total(|c: CandidateId| 0nat));
        votes
    }

    /// The weight of `candidate`.
    pub fn weight(&self, candidate: CandidateId) -> (weight: Balance)
        ensures
            weight == self@[candidate],
    {
        match self.weights.get(&candidate) {
            Some(weight) => *weight,
            None => 0,
        }
    }

    /// Sets the weight of `candidate`.
    pub fn insert(&mut self, candidate: CandidateId, weight: Balance)
        ensures
            final(self)@ == old(self)@.insert(candidate, weight as nat),
    {
        if weight == 0 {
            self.weights.remove(&candidate);
        } else {
            self.weights.insert(candidate, weight);
        }
        assert(final(self)@ =~= old(self)@.insert(candidate, weight as nat));
    }

    /// Moves one holder's votes from (`old_amount`, `old_targets`) to
    /// (`new_amount`, `new_targets`), each candidate once. Neither list names
    /// a candidate twice.
    pub fn update_votes(
        &mut self,
        old_amount: Balance,
        old_targets: &[CandidateId],
        new_amount: Balance,
        new_targets: &[CandidateId],
    )
        requires
            old_targets@.no_duplicates(),
            new_targets@.no_duplicates(),
        ensures
            final(self)@ == votes_after(
                old(self)@,
                old_amount as nat,
                old_targets@,
                new_amount as nat,
                new_targets@,
            ),
    {
        let ghost before = self@;
        let ghost after = votes_after(
            before,
            old_amount as nat,
            old_targets@,
            new_amount as nat,
            new_targets@,
        );
        let mut i: usize = 0;
        while i < old_targets.len()
            invariant
                i <= old_targets.len(),
                old_targets@.no_duplicates(),
                after == votes_after(
                    before,
                    old_amount as nat,
                    old_targets@,
                    new_amount as nat,
                    new_targets@,
                ),
                forall|c: CandidateId|
                    self@[c] == if old_targets@.take(i as int).contains(c) {
                        after[c]
                    } else {
                        before[c]
                    },
            decreases old_targets.len() - i,
        {
            let candidate = old_targets[i];
            let gain = if names(new_targets, candidate) {
                new_amount
            } else {
                0
            };
            let weight = self.weight(candidate);
            let ghost done = old_targets@.take(i as int);
            assert(!done.contains(candidate));
            assert(old_targets@.contains(candidate));
            self.insert(candidate, weight.saturating_sub(old_amount).saturating_add(gain));
            i = i + 1;
            assert forall|c: CandidateId|
                self@[c] == if old_targets@.take(i as int).contains(c) {
                    after[c]
                } else {
                    before[c]
                } by {
                lemma_next_named(old_targets@, i - 1, c);
            }
        }
        assert(old_targets@.take(i as int) == old_targets@);
        let mut j: usize = 0;
        while j < new_targets.len()
            invariant
                j <= new_targets.len(),
                new_targets@.no_duplicates(),
                after == votes_after(
                    before,
                    old_amount as nat,
                    old_targets@,
                    new_amount as nat,
                    new_targets@,
                ),
                forall|c: CandidateId|
                    self@[c] == if old_targets@.contains(c) || new_targets@.take(
                        j as int,
                    ).contains(c) {
                        after[c]
                    } else {
                        before[c]
                    },
            decreases new_targets.len() - j,
        {
            let candidate = new_targets[j];
            let ghost done = new_targets@.take(j as int);
            assert(!done.contains(candidate));
            assert(new_targets@.contains(candidate));
            if !names(old_targets, candidate) {
                let weight = self.weight(candidate);
                self.insert(candidate, weight.saturating_add(new_amount));
            }
            j = j + 1;
            assert forall|c: CandidateId|
                self@[c] == if old_targets@.contains(c) || new_targets@.take(j as int).contains(
                    c,
                ) {
                    after[c]
                } else {
                    before[c]
                } by {
                lemma_next_named(new_targets@, j - 1, c);
            }
        }
        assert(new_targets@.take(j as int) == new_targets@);
        assert(self@ =~= after);
    }

    /// Every candidate with nonzero weight, each once, with its weight.
    pub fn entries(&self) -> (list: Vec<(CandidateId, Balance)>)
        ensures
            forall|i: int|
                0 <= i < list.len() ==> (#[trigger] list[i]).1 > 0 && self@[list[i].0] == list[i].1,
            forall|i: int, j: int|
                0 <= i < j < list.len() ==> (#[trigger] list[i]).0 != (#[trigger] list[j]).0,
            forall|c: CandidateId|
                self@[c] > 0 ==> exists|i: int| 0 <= i < list.len() && (#[trigger] list[i]).0 == c,
    {
        let mut list: Vec<(CandidateId, Balance)> = Vec::new();
        for key in it: self.weights.keys()
            invariant
                it.seq() == spec_keys_iter(&self.weights).remaining(),
                forall|i: int|
                    0 <= i < list.len() ==> {
                        &&& (#[trigger] list[i]).1 > 0
                        &&& self@[list[i].0] == list[i].1
                        &&& exists|k: int| 0 <= k < it.index() && *it.seq()[k] == list[i].0
                    },
                forall|i: int, j: int|
                    0 <= i < j < list.len() ==> (#[trigger] list[i]).0 != (#[trigger] list[j]).0,
                forall|k: int|
                    0 <= k < it.index() && self@[*it.seq()[k]] > 0 ==> exists|i: int|
                        0 <= i < list.len() && (#[trigger] list[i]).0 == *it.seq()[k],
        {
            let weight = self.weight(*key);
            let ghost n = it.index();
            let ghost before = list@;
            assert(*key == *it.seq()[n]);
            if weight > 0 {
                list.push((*key, weight));
                assert(list@[before.len() as int].0 == *it.seq()[n]);
                assert forall|i: int| 0 <= i < before.len() implies (#[trigger] list@[i]).0
                    != *key by {
                    assert(list@[i] == before[i]);
                    let k = choose|k: int| 0 <= k < n && *it.seq()[k] == before[i].0;
                    assert(it.seq()[k] != it.seq()[n]);
                }
            }
            assert forall|k: int| 0 <= k < n + 1 && self@[*it.seq()[k]] > 0 implies exists|i: int|
                0 <= i < list.len() && (#[trigger] list[i]).0 == *it.seq()[k] by {
                if k < n {
                    let i = choose|i: int|
                        0 <= i < before.len() && (#[trigger] before[i]).0 == *it.seq()[k];
                    assert(list@[i] == before[i]);
                } else {
                    assert(list@[before.len() as int].0 == *it.seq()[k]);
                }
            }
        }
        assert forall|c: CandidateId| self@[c] > 0 implies exists|i: int|
            0 <= i < list.len() && (#[trigger] list[i]).0 == c by {
            let keys = spec_keys_iter(&self.weights).remaining();
            assert(self.weights@.dom().contains(c));
            assert(keys.unref().to_set().contains(c));
            let k = choose|k: int| 0 <= k < keys.unref().len() && keys.unref()[k] == c;
            assert(*keys[k] == c);
        }
        list
    }
}

} // verus!
