//! What holds of every election, stated over its mathematical model.

use vstd::prelude::*;
use crate::invariants::{
    lemma_bonded_inv, lemma_ledger_within_supply, lemma_support_covers, lemma_support_shift,
    lemma_support_within_supply, lemma_unbonded_inv,
};
use crate::ledger::LedgerView;
use crate::primitives::{AccountId, Balance, CandidateId, EraIndex, Error, LockUpdate};
use crate::ranking::lemma_elected_set_unique;
use crate::state::{account_space, State};
use crate::unlock_queue::{
    lemma_enqueued, lemma_only_tail_shares_era, lemma_unmatured, pending, reclaimed, unmatured,
    UnlockChunk,
};

verus! {

/// In every state that satisfies the invariant, each account's total is its
/// active stake plus the stake of all its pending unlock chunks.
pub proof fn law_total_is_active_plus_pending(state: State, who: AccountId)
    requires
        state.inv(),
    ensures
        state.ledger_of(who).total == state.ledger_of(who).active + pending(
            state.ledger_of(who).unlocking,
        ),
{
    if state.ledgers.contains_key(who) {
        assert(state.admits(state.ledgers[who]));
    }
}

/// In every state that satisfies the invariant, each candidate's vote weight
/// is the sum of the active stake of all accounts that nominate it.
pub proof fn law_votes_are_nominators_active_stake(state: State, candidate: CandidateId)
    requires
        state.inv(),
    ensures
        state.votes[candidate] == state.support(candidate),
{
}

/// A candidate that a single account nominates has exactly that account's
/// active stake as its vote weight, and a candidate that nobody nominates has
/// none.
pub proof fn law_votes_of_a_sole_nominator(state: State, who: AccountId, candidate: CandidateId)
    requires
        state.inv(),
        forall|other: AccountId|
            other != who ==> !(#[trigger] state.targets_of(other)).contains(candidate),
    ensures
        state.votes[candidate] == state.stake(who, candidate),
        state.targets_of(who).contains(candidate) ==> state.votes[candidate] == state.ledger_of(
            who,
        ).active,
        !state.targets_of(who).contains(candidate) ==> state.votes[candidate] == 0,
{
    assert(state.votes[candidate] == state.support(candidate));
    lemma_sole_backer(state, who, candidate, account_space());
}

/// If only `who` backs `candidate`, the support below a bound is the stake
/// of `who` or nothing.
proof fn lemma_sole_backer(state: State, who: AccountId, candidate: CandidateId, bound: nat)
    requires
        bound <= account_space(),
        forall|other: AccountId|
            other != who ==> !(#[trigger] state.targets_of(other)).contains(candidate),
    ensures
        state.support_below(candidate, bound) == if who < bound {
            state.stake(who, candidate)
        } else {
            0
        },
    decreases bound,
{
    if bound > 0 {
        lemma_sole_backer(state, who, candidate, (bound - 1) as nat);
        let last = (bound - 1) as AccountId;
        if last != who {
            assert(!state.targets_of(last).contains(candidate));
        }
    }
}

/// Rebalancing is determined by the votes: two rebalances under the same
/// weights and the same number of seats elect the same candidates in the
/// same order.
pub proof fn law_rebalance_is_deterministic(a: State, a_next: State, b: State, b_next: State)
    requires
        a.votes == b.votes,
        a.config.nominee_count == b.config.nominee_count,
        a.rebalances_to(a_next),
        b.rebalances_to(b_next),
    ensures
        a_next.elected == b_next.elected,
{
    lemma_elected_set_unique(
        a.votes,
        a.config.nominee_count as nat,
        a_next.elected,
        b_next.elected,
    );
}

/// Rebalancing is idempotent: a second rebalance right after the first
/// changes nothing.
pub proof fn law_rebalance_is_idempotent(state: State, once: State, twice: State)
    requires
        state.rebalances_to(once),
        once.rebalances_to(twice),
    ensures
        twice == once,
{
    law_rebalance_is_deterministic(state, once, once, twice);
}

/// Bonding from nothing, unbonding the same amount, waiting until it has
/// matured and withdrawing leaves the account without a ledger and every
/// other ledger, every nomination and every vote as before the bond.
pub proof fn law_bond_unbond_withdraw_round_trip(
    state: State,
    who: AccountId,
    amount: Balance,
    free: Balance,
    era: EraIndex,
)
    requires
        state.inv(),
        state.ledger_of(who) == LedgerView::zero(),
        state.supply() + state.bond_extra(who, amount, free) <= Balance::MAX,
        state.bond_error(who, amount, free) is None,
        state.bonded(who, amount, free).unbond_error(who, amount) is None,
        era >= state.maturity(),
    ensures
        ({
            let end = state.bonded(who, amount, free).unbonded(who, amount).advanced(
                era,
            ).withdrawn(who);
            &&& end == State { ledgers: state.ledgers.remove(who), current_era: era, ..state }
            &&& end.ledger_of(who) == LedgerView::zero()
        }),
{
    let bonded = state.bonded(who, amount, free);
    let unbonded = bonded.unbonded(who, amount);
    let waited = unbonded.advanced(era);
    let end = waited.withdrawn(who);
    let extra = state.bond_extra(who, amount, free);
    lemma_bonded_inv(state, who, amount, free);
    lemma_unbonded_inv(bonded, who, amount);
    let ledger = unbonded.ledgers[who];
    assert(bonded.ledgers[who] == LedgerView {
        total: extra,
        active: extra,
        unlocking: Seq::empty(),
    });
    assert(bonded.ledgers[who].unbondable(amount as nat) == extra);
    reveal_with_fuel(Seq::filter, 2);
    reveal_with_fuel(pending, 2);
    if extra > 0 {
        assert(ledger.unlocking.len() == 1);
        assert(ledger.unlocking[0].era == state.maturity());
        assert(ledger.unlocking.drop_last() =~= Seq::empty());
    }
    assert(ledger.withdrawn(era).unlocking =~= Seq::empty());
    assert(ledger.withdrawn(era).is_empty());
    assert(end.ledgers =~= state.ledgers.remove(who));
    assert forall|c: CandidateId| #[trigger] end.votes[c] == state.votes[c] by {
        assert(state.votes[c] == state.support(c));
        assert(bonded.votes[c] == bonded.support(c));
        lemma_support_shift(state, bonded, who, c, account_space());
        lemma_support_within_supply(bonded, c, account_space());
    }
    assert(end.votes =~= state.votes);
}

/// Withdrawing all nominations of an account that has none changes nothing.
pub proof fn law_chill_without_nominations_changes_nothing(state: State, who: AccountId)
    requires
        state.inv(),
        !state.nominations.contains_key(who),
    ensures
        state.chilled(who) == state,
{
    let end = state.chilled(who);
    assert(end.nominations =~= state.nominations);
    assert forall|c: CandidateId| #[trigger] end.votes[c] == state.votes[c] by {
        assert(state.votes[c] == state.support(c));
        lemma_support_within_supply(state, c, account_space());
    }
    assert(state.votes.contains_key(0));
    assert(end.votes =~= state.votes);
}

/// Withdrawing while nothing has matured changes nothing and leaves the lock
/// as it is, unless the ledger holds nothing at all.
pub proof fn law_withdraw_before_maturity_changes_nothing(state: State, who: AccountId)
    requires
        state.inv(),
        state.ledgers.contains_key(who),
        !state.ledgers[who].is_empty(),
        forall|i: int|
            0 <= i < state.ledgers[who].unlocking.len() ==> (
            #[trigger] state.ledgers[who].unlocking[i]).era > state.current_era,
    ensures
        state.withdrawn(who) == state,
        state.withdraw_lock(who) == LockUpdate::Keep,
{
    let ledger = state.ledgers[who];
    lemma_all_unmatured(ledger.unlocking, state.current_era);
    assert(ledger.withdrawn(state.current_era) == ledger);
    assert(state.withdrawn(who).ledgers =~= state.ledgers);
}

/// An unbond that moves stake is rejected for want of room exactly if the
/// queue is full and none of its chunks matures at the era at which the
/// stake would.
pub proof fn law_full_queue_rejects_unless_an_era_is_shared(
    state: State,
    who: AccountId,
    amount: Balance,
)
    requires
        state.inv(),
        state.ledgers.contains_key(who),
        state.ledgers[who].unbondable(amount as nat) > 0,
    ensures
        state.unbond_error(who, amount) == Some(Error::MaxUnlockChunksExceeded) <==> {
            &&& state.ledgers[who].unlocking.len() == state.config.max_unlock_chunks
            &&& forall|i: int|
                0 <= i < state.ledgers[who].unlocking.len() ==> (
                #[trigger] state.ledgers[who].unlocking[i]).era != state.maturity()
        },
{
    let ledger = state.ledgers[who];
    assert(state.admits(ledger));
    lemma_only_tail_shares_era(ledger.unlocking, state.maturity(), state.config.max_unlock_chunks);
}

/// Rebonding what an unbond has just moved undoes the unbond: the ledger,
/// its unlock queue and every vote are as before.
pub proof fn law_rebond_undoes_unbond(state: State, who: AccountId, amount: Balance)
    requires
        state.inv(),
        state.unbond_error(who, amount) is None,
    ensures
        ({
            let moved = state.ledgers[who].unbondable(amount as nat);
            state.unbonded(who, amount).rebonded(who, moved as Balance) == state
        }),
{
    let before = state.ledgers[who];
    let moved = before.unbondable(amount as nat);
    let unbonded = state.unbonded(who, amount);
    let end = unbonded.rebonded(who, moved as Balance);
    assert(state.admits(before));
    lemma_ledger_within_supply(state, who);
    lemma_unbonded_inv(state, who, amount);
    let queue = before.unlocking;
    let between = unbonded.ledgers[who];
    reveal_with_fuel(reclaimed, 2);
    if moved > 0 {
        lemma_enqueued(queue, moved as Balance, state.maturity());
        if queue.len() > 0 && queue.last().era == state.maturity() {
            assert(queue[queue.len() - 1].amount > 0);
            assert(reclaimed(between.unlocking, moved) =~= queue);
        } else {
            assert(between.unlocking.drop_last() =~= queue);
            assert(reclaimed(between.unlocking, moved) =~= queue);
        }
    } else {
        assert(reclaimed(between.unlocking, moved) =~= queue);
    }
    assert(between.rebonded(moved) == before);
    assert(end.ledgers =~= state.ledgers);
    assert forall|c: CandidateId| #[trigger] end.votes[c] == state.votes[c] by {
        assert(state.votes[c] == state.support(c));
        lemma_support_covers(state, who, c, account_space());
        lemma_support_within_supply(state, c, account_space());
        if moved > 0 {
            assert(unbonded.votes[c] == unbonded.support(c));
            lemma_support_shift(state, unbonded, who, c, account_space());
        }
    }
    assert(state.votes.contains_key(0));
    assert(end.votes =~= state.votes);
}

/// Withdrawing twice in the same era is the same as withdrawing once.
pub proof fn law_withdraw_is_idempotent(state: State, who: AccountId)
    requires
        state.inv(),
    ensures
        state.withdrawn(who).withdrawn(who) == state.withdrawn(who),
{
    let once = state.withdrawn(who);
    if state.ledgers.contains_key(who) {
        let before = state.ledgers[who];
        let after = before.withdrawn(state.current_era);
        assert(state.admits(before));
        lemma_unmatured(before.unlocking, state.current_era);
        let kept = after.unlocking;
        assert(unmatured(kept, state.current_era) == kept) by {
            lemma_all_unmatured(kept, state.current_era);
        }
        if !after.is_empty() {
            assert(after.withdrawn(state.current_era) == after);
            assert(once.withdrawn(who).ledgers =~= once.ledgers);
        }
    }
}

/// A queue of chunks that are all still locked stays as it is.
proof fn lemma_all_unmatured(chunks: Seq<UnlockChunk>, current_era: EraIndex)
    requires
        forall|i: int| 0 <= i < chunks.len() ==> (#[trigger] chunks[i]).era > current_era,
    ensures
        unmatured(chunks, current_era) == chunks,
    decreases chunks.len(),
{
    reveal(Seq::filter);
    if chunks.len() > 0 {
        let rest = chunks.drop_last();
        assert forall|i: int| 0 <= i < rest.len() implies (#[trigger] rest[i]).era
            > current_era by {
            assert(rest[i] == chunks[i]);
        }
        lemma_all_unmatured(rest, current_era);
        assert(chunks[chunks.len() - 1].era > current_era);
        assert(rest.push(chunks.last()) =~= chunks);
    }
}

} // verus!
