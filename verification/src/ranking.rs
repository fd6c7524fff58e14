//! The election engine: the candidates with the largest vote weight.
//!
//! Candidates are ranked by weight, larger first, and among equal weights by
//! identity, smaller first. The ranking is a strict total order, so the
//! elected set of given weights is unique.

use vstd::prelude::*;
use crate::primitives::{Balance, CandidateId};
use crate::votes::Votes;

verus! {

/// Whether `a` is ranked strictly before `b` under the weights `votes`.
pub open spec fn outranks(votes: Map<CandidateId, nat>, a: CandidateId, b: CandidateId) -> bool {
    votes[a] > votes[b] || (votes[a] == votes[b] && a < b)
}

/// Whether `elected` is the elected set of size up to `seats` under the
/// weights `votes`: it lists candidates with nonzero weight in ranking order,
/// and whoever has nonzero weight and is missing was crowded out by `seats`
/// candidates that all rank before it.
pub open spec fn is_elected_set(
    votes: Map<CandidateId, nat>,
    seats: nat,
    elected: Seq<CandidateId>,
) -> bool {
    &&& elected.len() <= seats
    &&& forall|i: int| 0 <= i < elected.len() ==> votes[#[trigger] elected[i]] > 0
    &&& forall|i: int, j: int|
        0 <= i < j < elected.len() ==> outranks(votes, #[trigger] elected[i], #[trigger] elected[j])
    &&& forall|c: CandidateId|
        votes[c] > 0 && !elected.contains(c) ==> {
            &&& elected.len() == seats
            &&& forall|i: int| 0 <= i < elected.len() ==> outranks(votes, #[trigger] elected[i], c)
        }
}

/// An elected set names no candidate twice.
pub proof fn lemma_elected_set_distinct(
    votes: Map<CandidateId, nat>,
    seats: nat,
    elected: Seq<CandidateId>,
)
    requires
        is_elected_set(votes, seats, elected),
    ensures
        elected.no_duplicates(),
{
    assert forall|i: int, j: int| 0 <= i < elected.len() && 0 <= j < elected.len() && i
        != j implies elected[i] != elected[j] by {
        if i < j {
            assert(outranks(votes, elected[i], elected[j]));
        } else {
            assert(outranks(votes, elected[j], elected[i]));
        }
    }
}

/// Two elected sets under the same weights agree on their first `n` places,
/// and the second has them if the first does.
proof fn lemma_elected_prefix(
    votes: Map<CandidateId, nat>,
    seats: nat,
    a: Seq<CandidateId>,
    b: Seq<CandidateId>,
    n: int,
)
    requires
        is_elected_set(votes, seats, a),
        is_elected_set(votes, seats, b),
        0 <= n <= a.len(),
    ensures
        n <= b.len(),
        forall|i: int| 0 <= i < n ==> a[i] == b[i],
    decreases n,
{
    if n > 0 {
        let i = n - 1;
        lemma_elected_prefix(votes, seats, a, b, i);
        let x = a[i];
        assert(votes[x] > 0);
        assert(forall|j: int| 0 <= j < i ==> outranks(votes, a[j], a[i]));
        if b.contains(x) {
            let j = choose|j: int| 0 <= j < b.len() && b[j] == x;
            if j < i {
                assert(a[j] == b[j]);
                assert(outranks(votes, a[j], a[i]));
            }
            if j > i {
                assert(outranks(votes, b[i], b[j]));
            }
        } else {
            assert(b.len() == seats);
        }
        assert(i < b.len());
        let y = b[i];
        assert(votes[y] > 0);
        if a.contains(y) {
            let j = choose|j: int| 0 <= j < a.len() && a[j] == y;
            if j < i {
                assert(a[j] == b[j]);
                assert(outranks(votes, b[j], b[i]));
            }
            if j > i {
                assert(outranks(votes, a[i], a[j]));
            }
        } else {
            assert(outranks(votes, a[i], y));
        }
        if !b.contains(x) {
            assert(outranks(votes, b[i], x));
        }
    }
}

/// The elected set is unique: the weights and the number of seats determine
/// who is elected and in which order.
pub proof fn lemma_elected_set_unique(
    votes: Map<CandidateId, nat>,
    seats: nat,
    a: Seq<CandidateId>,
    b: Seq<CandidateId>,
)
    requires
        is_elected_set(votes, seats, a),
        is_elected_set(votes, seats, b),
    ensures
        a == b,
{
    lemma_elected_prefix(votes, seats, a, b, a.len() as int);
    lemma_elected_prefix(votes, seats, b, a, b.len() as int);
    assert(a =~= b);
}

/// Whether the entry `a` is ranked strictly before the entry `b`, each entry
/// being a candidate with its weight.
pub open spec fn entry_outranks(a: (CandidateId, Balance), b: (CandidateId, Balance)) -> bool {
    a.1 > b.1 || (a.1 == b.1 && a.0 < b.0)
}

/// Decides [`entry_outranks`].
fn ranks_before(a: (CandidateId, Balance), b: (CandidateId, Balance)) -> (before: bool)
    ensures
        before == entry_outranks(a, b),
{
    a.1 > b.1 || (a.1 == b.1 && a.0 < b.0)
}

/// Whether `entries` are in ranking order, each strictly before the next.
pub open spec fn ranked(entries: Seq<(CandidateId, Balance)>) -> bool {
    forall|i: int, j: int|
        0 <= i < j < entries.len() ==> entry_outranks(#[trigger] entries[i], #[trigger] entries[j])
}

/// Whether no candidate has two entries in `entries`.
pub open spec fn one_entry_each(entries: Seq<(CandidateId, Balance)>) -> bool {
    forall|i: int, j: int|
        0 <= i < j < entries.len() ==> (#[trigger] entries[i]).0 != (#[trigger] entries[j]).0
}

/// Whether `entry` is among the first `i` entries of `a` or the first `j` of `b`.
spec fn drawn_from(
    entry: (CandidateId, Balance),
    a: Seq<(CandidateId, Balance)>,
    i: int,
    b: Seq<(CandidateId, Balance)>,
    j: int,
) -> bool {
    (exists|p: int| 0 <= p < i && a[p] == entry) || (exists|q: int| 0 <= q < j && b[q] == entry)
}

/// Whether `merged` holds, in ranking order, exactly the first `i` entries of
/// `a` and the first `j` of `b`, all of them ranked before the entries of
/// `a` and `b` that are still to come.
spec fn merged_so_far(
    merged: Seq<(CandidateId, Balance)>,
    a: Seq<(CandidateId, Balance)>,
    i: int,
    b: Seq<(CandidateId, Balance)>,
    j: int,
) -> bool {
    &&& 0 <= i <= a.len()
    &&& 0 <= j <= b.len()
    &&& merged.len() == i + j
    &&& ranked(merged)
    &&& forall|k: int|
        0 <= k < merged.len() ==> {
            &&& i < a.len() ==> entry_outranks(#[trigger] merged[k], a[i])
            &&& j < b.len() ==> entry_outranks(merged[k], b[j])
        }
    &&& forall|k: int| 0 <= k < merged.len() ==> drawn_from(#[trigger] merged[k], a, i, b, j)
    &&& forall|p: int| 0 <= p < i ==> merged.contains(#[trigger] a[p])
    &&& forall|q: int| 0 <= q < j ==> merged.contains(#[trigger] b[q])
}

/// Taking the next entry of `a` keeps a merge going, if that entry is ranked
/// before the next entry of `b`.
proof fn lemma_merge_step(
    merged: Seq<(CandidateId, Balance)>,
    a: Seq<(CandidateId, Balance)>,
    i: int,
    b: Seq<(CandidateId, Balance)>,
    j: int,
)
    requires
        merged_so_far(merged, a, i, b, j),
        ranked(a),
        i < a.len(),
        j < b.len() ==> entry_outranks(a[i], b[j]),
    ensures
        merged_so_far(merged.push(a[i]), a, i + 1, b, j),
{
    let grown = merged.push(a[i]);
    assert(grown[merged.len() as int] == a[i]);
    assert forall|k: int| 0 <= k < grown.len() implies {
        &&& i + 1 < a.len() ==> entry_outranks(#[trigger] grown[k], a[i + 1])
        &&& j < b.len() ==> entry_outranks(grown[k], b[j])
    } by {
        if k < merged.len() {
            assert(grown[k] == merged[k]);
        }
        if i + 1 < a.len() {
            assert(entry_outranks(a[i], a[i + 1]));
        }
    }
    assert forall|k: int| 0 <= k < grown.len() implies drawn_from(
        #[trigger] grown[k],
        a,
        i + 1,
        b,
        j,
    ) by {
        if k < merged.len() {
            assert(grown[k] == merged[k]);
            assert(drawn_from(merged[k], a, i, b, j));
            if exists|p: int| 0 <= p < i && a[p] == merged[k] {
                let p = choose|p: int| 0 <= p < i && a[p] == merged[k];
                assert(0 <= p < i + 1 && a[p] == grown[k]);
            }
        } else {
            assert(0 <= i < i + 1 && a[i] == grown[k]);
        }
    }
    assert forall|p: int| 0 <= p < i + 1 implies grown.contains(#[trigger] a[p]) by {
        if p < i {
            let k = choose|k: int| 0 <= k < merged.len() && merged[k] == a[p];
            assert(grown[k] == a[p]);
        }
    }
    assert forall|q: int| 0 <= q < j implies grown.contains(#[trigger] b[q]) by {
        let k = choose|k: int| 0 <= k < merged.len() && merged[k] == b[q];
        assert(grown[k] == b[q]);
    }
    assert forall|k: int, l: int| 0 <= k < l < grown.len() implies entry_outranks(
        #[trigger] grown[k],
        #[trigger] grown[l],
    ) by {
        assert(grown[k] == merged[k]);
        if l < merged.len() {
            assert(grown[l] == merged[l]);
        }
    }
}

/// Merges two ranked lists about different candidates into one ranked list
/// of the entries of both.
fn merge(a: &Vec<(CandidateId, Balance)>, b: &Vec<(CandidateId, Balance)>) -> (merged: Vec<
    (CandidateId, Balance),
>)
    requires
        ranked(a@),
        ranked(b@),
        forall|i: int, j: int|
            0 <= i < a.len() && 0 <= j < b.len() ==> (#[trigger] a[i]).0 != (#[trigger] b[j]).0,
        a.len() + b.len() <= usize::MAX,
    ensures
        ranked(merged@),
        merged.len() == a.len() + b.len(),
        forall|x: (CandidateId, Balance)|
            merged@.contains(x) <==> a@.contains(x) || b@.contains(x),
{
    let mut merged: Vec<(CandidateId, Balance)> = Vec::new();
    let mut i: usize = 0;
    let mut j: usize = 0;
    while i < a.len() || j < b.len()
        invariant
            a.len() + b.len() <= usize::MAX,
            ranked(a@),
            ranked(b@),
            forall|p: int, q: int|
                0 <= p < a.len() && 0 <= q < b.len() ==> (#[trigger] a[p]).0 != (#[trigger] b[q]).0,
            merged_so_far(merged@, a@, i as int, b@, j as int),
        decreases (a.len() - i) + (b.len() - j),
    {
        let from_a = if j == b.len() {
            true
        } else if i == a.len() {
            false
        } else {
            ranks_before(a[i], b[j])
        };
        if from_a {
            proof {
                lemma_merge_step(merged@, a@, i as int, b@, j as int);
            }
            merged.push(a[i]);
            i = i + 1;
        } else {
            proof {
                if i < a.len() {
                    assert(a[i as int].0 != b[j as int].0);
                }
                assert(merged_so_far(merged@, b@, j as int, a@, i as int));
                lemma_merge_step(merged@, b@, j as int, a@, i as int);
            }
            merged.push(b[j]);
            j = j + 1;
            assert(merged_so_far(merged@, a@, i as int, b@, j as int));
        }
    }
    proof {
        assert forall|x: (CandidateId, Balance)| merged@.contains(x) implies a@.contains(x)
            || b@.contains(x) by {
            let k = choose|k: int| 0 <= k < merged.len() && merged[k] == x;
            assert(drawn_from(merged[k], a@, i as int, b@, j as int));
            if exists|p: int| 0 <= p < i && a[p] == merged[k] {
                let p = choose|p: int| 0 <= p < i && a[p] == merged[k];
                assert(a@[p] == x);
            } else {
                let q = choose|q: int| 0 <= q < j && b[q] == merged[k];
                assert(b@[q] == x);
            }
        }
        assert forall|x: (CandidateId, Balance)|
            a@.contains(x) || b@.contains(x) implies merged@.contains(x) by {
            if a@.contains(x) {
                let p = choose|p: int| 0 <= p < a.len() && a[p] == x;
                assert(merged@.contains(a[p]));
            } else {
                let q = choose|q: int| 0 <= q < b.len() && b[q] == x;
                assert(merged@.contains(b[q]));
            }
        }
    }
    merged
}

/// The entries `entries[from..to]` in ranking order.
fn rank_range(entries: &Vec<(CandidateId, Balance)>, from: usize, to: usize) -> (sorted: Vec<
    (CandidateId, Balance),
>)
    requires
        from <= to <= entries.len(),
        one_entry_each(entries@),
    ensures
        ranked(sorted@),
        sorted.len() == to - from,
        forall|x: (CandidateId, Balance)|
            sorted@.contains(x) <==> exists|i: int| from <= i < to && entries[i] == x,
    decreases to - from,
{
    if to - from == 0 {
        let sorted: Vec<(CandidateId, Balance)> = Vec::new();
        sorted
    } else if to - from == 1 {
        let mut sorted: Vec<(CandidateId, Balance)> = Vec::new();
        sorted.push(entries[from]);
        proof {
            assert(sorted@[0] == entries[from as int]);
            assert forall|x: (CandidateId, Balance)| (exists|i: int|
                from <= i < to && entries[i] == x) implies sorted@.contains(x) by {
                assert(sorted@[0] == x);
            }
        }
        sorted
    } else {
        let middle = from + (to - from) / 2;
        let front = rank_range(entries, from, middle);
        let back = rank_range(entries, middle, to);
        proof {
            assert forall|i: int, j: int| 0 <= i < front.len() && 0 <= j < back.len() implies (
            #[trigger] front[i]).0 != (#[trigger] back[j]).0 by {
                assert(front@.contains(front[i]));
                assert(back@.contains(back[j]));
                let p = choose|p: int| from <= p < middle && entries[p] == front[i];
                let q = choose|q: int| middle <= q < to && entries[q] == back[j];
                assert(entries[p].0 != entries[q].0);
            }
        }
        let sorted = merge(&front, &back);
        proof {
            assert forall|x: (CandidateId, Balance)| sorted@.contains(x) implies exists|i: int|
                from <= i < to && entries[i] == x by {
                if front@.contains(x) {
                    let p = choose|p: int| from <= p < middle && entries[p] == x;
                    assert(from <= p < to && entries[p] == x);
                } else {
                    let q = choose|q: int| middle <= q < to && entries[q] == x;
                    assert(from <= q < to && entries[q] == x);
                }
            }
            assert forall|x: (CandidateId, Balance)| (exists|i: int|
                from <= i < to && entries[i] == x) implies sorted@.contains(x) by {
                let i = choose|i: int| from <= i < to && entries[i] == x;
                if i < middle {
                    assert(from <= i < middle && entries[i] == x);
                    assert(front@.contains(x));
                } else {
                    assert(middle <= i < to && entries[i] == x);
                    assert(back@.contains(x));
                }
            }
        }
        sorted
    }
}

/// Selects the elected set of up to `seats` candidates from the weights
/// `votes`: the candidates with nonzero weight are ranked, and the first
/// `seats` of them are elected.
pub fn elect(votes: &Votes, seats: usize) -> (elected: Vec<CandidateId>)
    ensures
        is_elected_set(votes@, seats as nat, elected@),
{
    let entries = votes.entries();
    let sorted = rank_range(&entries, 0, entries.len());
    let mut elected: Vec<CandidateId> = Vec::new();
    let mut i: usize = 0;
    while i < sorted.len() && i < seats
        invariant
            i <= sorted.len(),
            i <= seats,
            elected.len() == i,
            forall|j: int| 0 <= j < i ==> #[trigger] elected[j] == sorted[j].0,
        decreases sorted.len() - i,
    {
        elected.push(sorted[i].0);
        i = i + 1;
    }
    proof {
        let tally = votes@;
        assert forall|j: int| 0 <= j < sorted.len() implies tally[(#[trigger] sorted[j]).0]
            == sorted[j].1 && sorted[j].1 > 0 by {
            assert(sorted@.contains(sorted[j]));
            let m = choose|m: int| 0 <= m < entries.len() && entries[m] == sorted[j];
            assert(entries[m].1 > 0);
        }
        assert forall|j: int| 0 <= j < elected.len() implies tally[#[trigger] elected[j]] > 0 by {
            assert(tally[sorted[j].0] == sorted[j].1);
        }
        assert forall|a: int, b: int| 0 <= a < b < elected.len() implies outranks(
            tally,
            #[trigger] elected[a],
            #[trigger] elected[b],
        ) by {
            assert(entry_outranks(sorted[a], sorted[b]));
            assert(tally[sorted[a].0] == sorted[a].1);
            assert(tally[sorted[b].0] == sorted[b].1);
        }
        assert forall|c: CandidateId| tally[c] > 0 && !elected@.contains(c) implies {
            &&& elected.len() == seats
            &&& forall|j: int| 0 <= j < elected.len() ==> outranks(tally, #[trigger] elected[j], c)
        } by {
            let m = choose|m: int| 0 <= m < entries.len() && (#[trigger] entries[m]).0 == c;
            assert(0 <= m < entries.len() && entries[m] == entries[m]);
            assert(sorted@.contains(entries[m]));
            let k = choose|k: int| 0 <= k < sorted.len() && sorted[k] == entries[m];
            if k < elected.len() {
                assert(elected[k] == c);
            }
            assert(tally[sorted[k].0] == sorted[k].1);
            assert forall|j: int| 0 <= j < elected.len() implies outranks(
                tally,
                #[trigger] elected[j],
                c,
            ) by {
                assert(entry_outranks(sorted[j], sorted[k]));
                assert(tally[sorted[j].0] == sorted[j].1);
            }
        }
    }
    elected
}

} // verus!
