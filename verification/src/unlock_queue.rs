//! The per-account queue of pending unlock chunks.
//!
//! A queue is a sequence of chunks with strictly increasing maturation eras.
//! New stake enters at the tail, reclaimed stake leaves from the tail, and
//! matured stake is released wherever it sits.

use vstd::prelude::*;
use crate::primitives::{Balance, EraIndex};

verus! {

/// Stake that has left the active part of a ledger and becomes withdrawable
/// once the current era reaches `era`.
#[derive(Clone, Copy, Debug, PartialEq, Eq, Structural)]
pub struct UnlockChunk {
    pub amount: Balance,
    pub era: EraIndex,
}

/// The sum of the amounts of all chunks of a queue.
pub open spec fn pending(chunks: Seq<UnlockChunk>) -> nat
    decreases chunks.len(),
{
    if chunks.len() == 0 {
        0
    } else {
        pending(chunks.drop_last()) + chunks.last().amount as nat
    }
}

/// Every chunk holds stake, and the chunks mature in strictly increasing
/// era order from head to tail.
pub open spec fn queue_ordered(chunks: Seq<UnlockChunk>) -> bool {
    &&& forall|i: int| 0 <= i < chunks.len() ==> (#[trigger] chunks[i]).amount > 0
    &&& forall|i: int, j: int|
        0 <= i < j < chunks.len() ==> (#[trigger] chunks[i]).era < (#[trigger] chunks[j]).era
}

/// No chunk of the queue matures after `limit`.
pub open spec fn matures_by(chunks: Seq<UnlockChunk>, limit: EraIndex) -> bool {
    forall|i: int| 0 <= i < chunks.len() ==> (#[trigger] chunks[i]).era <= limit
}

/// Whether stake maturing at `era` can enter a queue bounded by `max_chunks`:
/// either there is room for another chunk, or the tail matures at the same
/// era and absorbs the stake.
pub open spec fn accepts(chunks: Seq<UnlockChunk>, era: EraIndex, max_chunks: usize) -> bool {
    chunks.len() < max_chunks || (chunks.len() > 0 && chunks.last().era == era)
}

/// The queue after `amount` maturing at `era` has entered at the tail.
pub open spec fn enqueued(chunks: Seq<UnlockChunk>, amount: Balance, era: EraIndex) -> Seq<
    UnlockChunk,
> {
    if chunks.len() > 0 && chunks.last().era == era {
        chunks.update(
            chunks.len() - 1,
            UnlockChunk { amount: (chunks.last().amount + amount) as Balance, era },
        )
    } else {
        chunks.push(UnlockChunk { amount, era })
    }
}

/// The queue after up to `amount` has been taken back from the tail: whole
/// chunks while they fit, then a part of the next one.
pub open spec fn reclaimed(chunks: Seq<UnlockChunk>, amount: nat) -> Seq<UnlockChunk>
    decreases chunks.len(),
{
    if chunks.len() == 0 || amount == 0 {
        chunks
    } else if chunks.last().amount <= amount {
        reclaimed(chunks.drop_last(), (amount - chunks.last().amount) as nat)
    } else {
        chunks.update(
            chunks.len() - 1,
            UnlockChunk {
                amount: (chunks.last().amount - amount) as Balance,
                era: chunks.last().era,
            },
        )
    }
}

/// The stake that a reclaim of `amount` moves: all of it, or what the queue holds.
pub open spec fn reclaimable(chunks: Seq<UnlockChunk>, amount: nat) -> nat {
    if amount <= pending(chunks) {
        amount
    } else {
        pending(chunks)
    }
}

/// The chunks that are still locked in `current_era`.
pub open spec fn unmatured(chunks: Seq<UnlockChunk>, current_era: EraIndex) -> Seq<UnlockChunk> {
    chunks.filter(|c: UnlockChunk| c.era > current_era)
}

/// Each chunk is part of the pending sum.
pub proof fn lemma_pending_bounds_chunks(chunks: Seq<UnlockChunk>, i: int)
    requires
        0 <= i < chunks.len(),
    ensures
        chunks[i].amount <= pending(chunks),
    decreases chunks.len(),
{
    if i < chunks.len() - 1 {
        lemma_pending_bounds_chunks(chunks.drop_last(), i);
    }
}

/// In an ordered queue whose chunks all mature by `era`, only the tail can
/// mature at `era`: a queue accepts stake for `era` exactly if it has room or
/// some chunk of it matures at `era`.
pub proof fn lemma_only_tail_shares_era(chunks: Seq<UnlockChunk>, era: EraIndex, max_chunks: usize)
    requires
        queue_ordered(chunks),
        matures_by(chunks, era),
    ensures
        forall|i: int|
            0 <= i < chunks.len() && (#[trigger] chunks[i]).era == era ==> i + 1 == chunks.len(),
        accepts(chunks, era, max_chunks) <==> (chunks.len() < max_chunks || exists|i: int|
            0 <= i < chunks.len() && (#[trigger] chunks[i]).era == era),
{
    assert forall|i: int| 0 <= i < chunks.len() && (#[trigger] chunks[i]).era == era implies i + 1
        == chunks.len() by {
        if i + 1 < chunks.len() {
            assert(chunks[i].era < chunks[chunks.len() - 1].era);
        }
    }
    if chunks.len() > 0 && chunks.last().era == era {
        assert(chunks[chunks.len() - 1].era == era);
    }
}

/// Entering stake raises the pending sum by exactly the entered amount and
/// keeps the queue ordered when the new era is not before the tail's.
pub proof fn lemma_enqueued(chunks: Seq<UnlockChunk>, amount: Balance, era: EraIndex)
    requires
        pending(chunks) + amount <= Balance::MAX,
    ensures
        pending(enqueued(chunks, amount, era)) == pending(chunks) + amount,
        queue_ordered(chunks) && amount > 0 && matures_by(chunks, era) ==> queue_ordered(
            enqueued(chunks, amount, era),
        ),
        matures_by(chunks, era) ==> matures_by(enqueued(chunks, amount, era), era),
{
    let after = enqueued(chunks, amount, era);
    if chunks.len() > 0 && chunks.last().era == era {
        lemma_pending_bounds_chunks(chunks, chunks.len() - 1);
        assert(after.drop_last() == chunks.drop_last());
    } else {
        assert(after.drop_last() == chunks);
    }
}

/// Chunks that all come from a queue mature by whatever the queue matures by.
pub proof fn lemma_members_mature(part: Seq<UnlockChunk>, chunks: Seq<UnlockChunk>)
    requires
        forall|i: int| 0 <= i < part.len() ==> chunks.contains(#[trigger] part[i]),
    ensures
        forall|limit: EraIndex| matures_by(chunks, limit) ==> #[trigger] matures_by(part, limit),
{
    assert forall|limit: EraIndex| matures_by(chunks, limit) implies #[trigger] matures_by(
        part,
        limit,
    ) by {
        assert forall|i: int| 0 <= i < part.len() implies (#[trigger] part[i]).era <= limit by {
            let j = choose|j: int| 0 <= j < chunks.len() && chunks[j] == part[i];
            assert(chunks[j].era <= limit);
        }
    }
}

/// A queue without its tail is ordered if the queue is, and matures by
/// whatever the queue matures by.
pub proof fn lemma_head_of_queue(chunks: Seq<UnlockChunk>)
    requires
        chunks.len() > 0,
    ensures
        queue_ordered(chunks) ==> queue_ordered(chunks.drop_last()),
        forall|limit: EraIndex|
            matures_by(chunks, limit) ==> #[trigger] matures_by(chunks.drop_last(), limit),
{
    let rest = chunks.drop_last();
    assert forall|i: int| 0 <= i < rest.len() implies chunks.contains(#[trigger] rest[i]) by {
        assert(chunks[i] == rest[i]);
    }
    lemma_members_mature(rest, chunks);
    if queue_ordered(chunks) {
        assert forall|i: int| 0 <= i < rest.len() implies (#[trigger] rest[i]).amount > 0 by {
            assert(rest[i] == chunks[i]);
        }
        assert forall|i: int, j: int| 0 <= i < j < rest.len() implies (#[trigger] rest[i]).era < (
        #[trigger] rest[j]).era by {
            assert(rest[i] == chunks[i]);
            assert(rest[j] == chunks[j]);
        }
    }
}

/// A reclaim lowers the pending sum by exactly the reclaimable amount. What
/// stays is a head of the queue, untouched except that its last chunk may
/// have shrunk, so the queue stays ordered and within its maturity limit.
pub proof fn lemma_reclaimed(chunks: Seq<UnlockChunk>, amount: nat)
    ensures
        pending(reclaimed(chunks, amount)) + reclaimable(chunks, amount) == pending(chunks),
        reclaimed(chunks, amount).len() <= chunks.len(),
        forall|i: int|
            0 <= i < reclaimed(chunks, amount).len() ==> {
                &&& (#[trigger] reclaimed(chunks, amount)[i]).era == chunks[i].era
                &&& reclaimed(chunks, amount)[i].amount <= chunks[i].amount
                &&& i + 1 < reclaimed(chunks, amount).len() ==> reclaimed(chunks, amount)[i]
                    == chunks[i]
            },
        queue_ordered(chunks) ==> queue_ordered(reclaimed(chunks, amount)),
        forall|limit: EraIndex|
            matures_by(chunks, limit) ==> #[trigger] matures_by(reclaimed(chunks, amount), limit),
    decreases chunks.len(),
{
    if chunks.len() == 0 || amount == 0 {
    } else if chunks.last().amount <= amount {
        let rest = chunks.drop_last();
        lemma_reclaimed(rest, (amount - chunks.last().amount) as nat);
        lemma_head_of_queue(chunks);
    } else {
        let after = reclaimed(chunks, amount);
        assert(after.drop_last() == chunks.drop_last());
        if queue_ordered(chunks) {
            assert forall|i: int, j: int| 0 <= i < j < after.len() implies (
            #[trigger] after[i]).era < (#[trigger] after[j]).era by {
                assert(chunks[i].era < chunks[j].era);
            }
            assert forall|i: int| 0 <= i < after.len() implies (#[trigger] after[i]).amount
                > 0 by {
                assert(chunks[i].amount > 0);
            }
        }
        assert forall|limit: EraIndex| matures_by(chunks, limit) implies #[trigger] matures_by(
            after,
            limit,
        ) by {
            assert forall|i: int| 0 <= i < after.len() implies (#[trigger] after[i]).era
                <= limit by {
                assert(chunks[i].era <= limit);
            }
        }
    }
}

/// Releasing matured chunks keeps a part of the queue, in order: what stays
/// was there before, is still locked, and sums to no more than before.
pub proof fn lemma_unmatured(chunks: Seq<UnlockChunk>, current_era: EraIndex)
    ensures
        pending(unmatured(chunks, current_era)) <= pending(chunks),
        unmatured(chunks, current_era).len() <= chunks.len(),
        forall|i: int|
            0 <= i < unmatured(chunks, current_era).len() ==> {
                &&& chunks.contains(#[trigger] unmatured(chunks, current_era)[i])
                &&& unmatured(chunks, current_era)[i].era > current_era
            },
        queue_ordered(chunks) ==> queue_ordered(unmatured(chunks, current_era)),
        forall|limit: EraIndex|
            matures_by(chunks, limit) ==> #[trigger] matures_by(
                unmatured(chunks, current_era),
                limit,
            ),
        matures_by(chunks, current_era) ==> unmatured(chunks, current_era).len() == 0,
    decreases chunks.len(),
{
    reveal(Seq::filter);
    let kept = unmatured(chunks, current_era);
    if chunks.len() > 0 {
        let rest = chunks.drop_last();
        let last = chunks.last();
        let kept_rest = unmatured(rest, current_era);
        lemma_unmatured(rest, current_era);
        assert forall|i: int| 0 <= i < kept.len() implies {
            &&& chunks.contains(#[trigger] kept[i])
            &&& kept[i].era > current_era
        } by {
            if i < kept_rest.len() {
                assert(kept[i] == kept_rest[i]);
                let j = choose|j: int| 0 <= j < rest.len() && rest[j] == kept_rest[i];
                assert(chunks[j] == kept[i]);
            } else {
                assert(chunks[chunks.len() - 1] == kept[i]);
            }
        }
        if last.era > current_era {
            assert(kept.drop_last() == kept_rest);
        }
        lemma_head_of_queue(chunks);
        if queue_ordered(chunks) {
            assert forall|i: int| 0 <= i < kept.len() implies (#[trigger] kept[i]).amount
                > 0 by {
                let j = choose|j: int| 0 <= j < chunks.len() && chunks[j] == kept[i];
                assert(chunks[j].amount > 0);
            }
            assert forall|i: int, j: int| 0 <= i < j < kept.len() implies (
            #[trigger] kept[i]).era < (#[trigger] kept[j]).era by {
                if j < kept_rest.len() {
                    assert(kept_rest[i].era < kept_rest[j].era);
                } else {
                    let k = choose|k: int| 0 <= k < rest.len() && rest[k] == kept_rest[i];
                    assert(chunks[k].era < chunks[chunks.len() - 1].era);
                }
            }
        }
        lemma_members_mature(kept, chunks);
        if matures_by(chunks, current_era) {
            assert(chunks[chunks.len() - 1].era <= current_era);
        }
    }
}

/// Lets `amount` maturing at `era` enter at the tail: it joins the tail chunk
/// when that matures at the same era, and becomes a new tail chunk otherwise.
/// The queue's stake and `amount` together must fit in a [`Balance`].
pub fn enqueue(chunks: &mut Vec<UnlockChunk>, amount: Balance, era: EraIndex)
    requires
        pending(old(chunks)@) + amount <= Balance::MAX,
    ensures
        final(chunks)@ == enqueued(old(chunks)@, amount, era),
{
    let n = chunks.len();
    if n > 0 && chunks[n - 1].era == era {
        proof {
            lemma_pending_bounds_chunks(chunks@, n - 1);
        }
        let merged = UnlockChunk { amount: chunks[n - 1].amount + amount, era };
        chunks[n - 1] = merged;
    } else {
        chunks.push(UnlockChunk { amount, era });
    }
}

/// Takes up to `amount` back from the tail of the queue, most recently
/// unbonded stake first, and reports how much was taken.
pub fn reclaim(chunks: &mut Vec<UnlockChunk>, amount: Balance) -> (moved: Balance)
    ensures
        final(chunks)@ == reclaimed(old(chunks)@, amount as nat),
        moved == reclaimable(old(chunks)@, amount as nat),
{
    let mut moved: Balance = 0;
    while chunks.len() > 0 && moved < amount
        invariant
            moved <= amount,
            reclaimed(old(chunks)@, amount as nat) == reclaimed(chunks@, (amount - moved) as nat),
            moved + reclaimable(chunks@, (amount - moved) as nat) == reclaimable(
                old(chunks)@,
                amount as nat,
            ),
        decreases chunks.len(), amount - moved,
    {
        let n = chunks.len();
        let last = chunks[n - 1];
        let wanted = amount - moved;
        if last.amount <= wanted {
            moved = moved + last.amount;
            chunks.pop();
        } else {
            chunks[n - 1] = UnlockChunk { amount: last.amount - wanted, era: last.era };
            moved = amount;
        }
    }
    moved
}

/// Drops every chunk that has matured by `current_era` and reports the stake
/// that they held. The queue's stake must fit in a [`Balance`].
pub fn release_matured(chunks: &mut Vec<UnlockChunk>, current_era: EraIndex) -> (released: Balance)
    requires
        pending(old(chunks)@) <= Balance::MAX,
    ensures
        final(chunks)@ == unmatured(old(chunks)@, current_era),
        released + pending(final(chunks)@) == pending(old(chunks)@),
{
    let mut kept: Vec<UnlockChunk> = Vec::new();
    let mut released: Balance = 0;
    let mut i: usize = 0;
    while i < chunks.len()
        invariant
            i <= chunks.len(),
            chunks@ == old(chunks)@,
            kept@ == unmatured(chunks@.take(i as int), current_era),
            released + pending(kept@) == pending(chunks@.take(i as int)),
            pending(chunks@) <= Balance::MAX,
        decreases chunks.len() - i,
    {
        let chunk = chunks[i];
        proof {
            reveal(Seq::filter);
            let next = chunks@.take(i + 1);
            assert(next.drop_last() == chunks@.take(i as int));
            assert(next.last() == chunk);
            lemma_pending_prefix(chunks@, i + 1);
        }
        if chunk.era > current_era {
            kept.push(chunk);
            assert(kept@.drop_last() == unmatured(chunks@.take(i as int), current_era));
        } else {
            released = released + chunk.amount;
        }
        i = i + 1;
    }
    assert(chunks@.take(i as int) == chunks@);
    *chunks = kept;
    released
}

/// A prefix of a queue holds no more stake than the whole queue.
pub proof fn lemma_pending_prefix(chunks: Seq<UnlockChunk>, n: int)
    requires
        0 <= n <= chunks.len(),
    ensures
        pending(chunks.take(n)) <= pending(chunks),
    decreases chunks.len(),
{
    if n == chunks.len() {
        assert(chunks.take(n) == chunks);
    } else {
        assert(chunks.drop_last().take(n) == chunks.take(n));
        lemma_pending_prefix(chunks.drop_last(), n);
    }
}

} // verus!
