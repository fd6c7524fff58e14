//! Why every transition of an election keeps its invariant.

use vstd::prelude::*;
use crate::ledger::{
    lemma_bonded_sound, lemma_rebonded_sound, lemma_unbonded_sound, lemma_withdrawn_sound,
    LedgerView,
};
use crate::primitives::{AccountId, Balance, CandidateId, Config, EraIndex};
use crate::ranking::lemma_elected_set_distinct;
use crate::state::{account_space, State};
use crate::votes::tally;

verus! {

/// If two states differ only in how `who` backs `candidate`, their support
/// for `candidate` differs by exactly that.
pub proof fn lemma_support_shift(
    pre: State,
    post: State,
    who: AccountId,
    candidate: CandidateId,
    bound: nat,
)
    requires
        bound <= account_space(),
        forall|a: AccountId| a != who ==> pre.stake(a, candidate) == post.stake(a, candidate),
    ensures
        who < bound ==> post.support_below(candidate, bound) + pre.stake(who, candidate)
            == pre.support_below(candidate, bound) + post.stake(who, candidate),
        who >= bound ==> post.support_below(candidate, bound) == pre.support_below(
            candidate,
            bound,
        ),
    decreases bound,
{
    if bound > 0 {
        lemma_support_shift(pre, post, who, candidate, (bound - 1) as nat);
    }
}

/// If two states differ only in the ledger total of `who`, their supply
/// differs by exactly that.
pub proof fn lemma_supply_shift(pre: State, post: State, who: AccountId, bound: nat)
    requires
        bound <= account_space(),
        forall|a: AccountId| a != who ==> pre.ledger_of(a).total == post.ledger_of(a).total,
    ensures
        who < bound ==> post.supply_below(bound) + pre.ledger_of(who).total == pre.supply_below(
            bound,
        ) + post.ledger_of(who).total,
        who >= bound ==> post.supply_below(bound) == pre.supply_below(bound),
    decreases bound,
{
    if bound > 0 {
        lemma_supply_shift(pre, post, who, (bound - 1) as nat);
    }
}

/// The support for a candidate includes the stake of each single backer.
pub proof fn lemma_support_covers(
    state: State,
    who: AccountId,
    candidate: CandidateId,
    bound: nat,
)
    requires
        who < bound <= account_space(),
    ensures
        state.stake(who, candidate) <= state.support_below(candidate, bound),
    decreases bound,
{
    if who < bound - 1 {
        lemma_support_covers(state, who, candidate, (bound - 1) as nat);
    }
}

/// No candidate is backed by more than the ledgers keep locked.
pub proof fn lemma_support_within_supply(state: State, candidate: CandidateId, bound: nat)
    requires
        bound <= account_space(),
        forall|who: AccountId| #[trigger]
            state.ledgers.contains_key(who) ==> state.ledgers[who].balanced(),
    ensures
        state.support_below(candidate, bound) <= state.supply_below(bound),
    decreases bound,
{
    if bound > 0 {
        lemma_support_within_supply(state, candidate, (bound - 1) as nat);
        let who = (bound - 1) as AccountId;
        if state.ledgers.contains_key(who) {
            assert(state.ledgers[who].balanced());
        }
    }
}

/// When one account's active stake or nominations change and the votes are
/// moved accordingly, the votes still match the nominators' active stake.
pub proof fn lemma_votes_follow(pre: State, post: State, who: AccountId)
    requires
        pre.votes_match(),
        forall|a: AccountId|
            a != who ==> pre.ledger_of(a).active == post.ledger_of(a).active && pre.targets_of(a)
                == post.targets_of(a),
        forall|c: CandidateId| #[trigger] post.votes.contains_key(c),
        forall|c: CandidateId| #[trigger]
            post.votes[c] == tally(pre.votes[c], pre.stake(who, c), post.stake(who, c)),
        forall|a: AccountId| #[trigger]
            post.ledgers.contains_key(a) ==> post.ledgers[a].balanced(),
        post.supply() <= Balance::MAX,
    ensures
        post.votes_match(),
{
    assert forall|c: CandidateId| #[trigger] post.votes[c] == post.support(c) by {
        assert(pre.votes[c] == pre.support(c));
        lemma_support_shift(pre, post, who, c, account_space());
        lemma_support_covers(pre, who, c, account_space());
        lemma_support_within_supply(post, c, account_space());
    }
}

/// Replacing one ledger by an admissible one, with the votes moved along,
/// keeps the invariant as long as the supply still fits.
pub proof fn lemma_with_ledger_inv(state: State, who: AccountId, ledger: LedgerView)
    requires
        state.inv(),
        state.admits(ledger),
        state.supply() - state.ledger_of(who).total + ledger.total <= Balance::MAX,
    ensures
        state.with_ledger(who, ledger).inv(),
        state.with_ledger(who, ledger).supply() + state.ledger_of(who).total == state.supply()
            + ledger.total,
{
    let post = state.with_ledger(who, ledger);
    lemma_supply_shift(state, post, who, account_space());
    assert forall|a: AccountId| #[trigger] post.ledgers.contains_key(a) implies post.admits(
        post.ledgers[a],
    ) by {
        if a != who {
            assert(state.ledgers.contains_key(a));
        }
    }
    lemma_votes_follow(state, post, who);
}

/// A new election satisfies the invariant.
pub proof fn lemma_initial_inv(config: Config)
    ensures
        State::initial(config).inv(),
        State::initial(config).supply() == 0,
{
    let state = State::initial(config);
    lemma_initial_sums(state, 0, account_space());
    assert forall|c: CandidateId| #[trigger] state.votes[c] == state.support(c) by {
        lemma_initial_sums(state, c, account_space());
    }
}

/// Without ledgers there is neither supply nor support.
proof fn lemma_initial_sums(state: State, candidate: CandidateId, bound: nat)
    requires
        state.ledgers == Map::<AccountId, LedgerView>::empty(),
    ensures
        state.supply_below(bound) == 0,
        state.support_below(candidate, bound) == 0,
    decreases bound,
{
    if bound > 0 {
        lemma_initial_sums(state, candidate, (bound - 1) as nat);
    }
}

/// An accepted bond keeps the invariant as long as the supply still fits,
/// and raises the supply by what was bonded.
pub proof fn lemma_bonded_inv(state: State, who: AccountId, amount: Balance, free: Balance)
    requires
        state.inv(),
        state.supply() + state.bond_extra(who, amount, free) <= Balance::MAX,
    ensures
        state.bonded(who, amount, free).inv(),
        state.bonded(who, amount, free).supply() == state.supply() + state.bond_extra(
            who,
            amount,
            free,
        ),
{
    let ledger = state.ledger_of(who);
    let extra = state.bond_extra(who, amount, free);
    if state.ledgers.contains_key(who) {
        assert(state.admits(state.ledgers[who]));
    }
    lemma_bonded_sound(ledger, extra);
    lemma_with_ledger_inv(state, who, ledger.bonded(extra));
}

/// An accepted unbond keeps the invariant and the supply.
pub proof fn lemma_unbonded_inv(state: State, who: AccountId, amount: Balance)
    requires
        state.inv(),
        state.unbond_error(who, amount) is None,
    ensures
        state.unbonded(who, amount).inv(),
        state.unbonded(who, amount).supply() == state.supply(),
{
    let ledger = state.ledgers[who];
    if ledger.unbondable(amount as nat) > 0 {
        assert(state.admits(ledger));
        lemma_ledger_within_supply(state, who);
        lemma_unbonded_sound(
            ledger,
            amount as nat,
            state.maturity(),
            state.config.min_bond_threshold,
            state.config.max_unlock_chunks,
        );
        lemma_with_ledger_inv(state, who, ledger.unbonded(amount as nat, state.maturity()));
    }
}

/// An accepted rebond keeps the invariant and the supply.
pub proof fn lemma_rebonded_inv(state: State, who: AccountId, amount: Balance)
    requires
        state.inv(),
        state.rebond_error(who) is None,
    ensures
        state.rebonded(who, amount).inv(),
        state.rebonded(who, amount).supply() == state.supply(),
{
    let ledger = state.ledgers[who];
    assert(state.admits(ledger));
    lemma_rebonded_sound(ledger, amount as nat);
    lemma_with_ledger_inv(state, who, ledger.rebonded(amount as nat));
}

/// A withdrawal keeps the invariant and lowers the supply by what was released.
pub proof fn lemma_withdrawn_inv(state: State, who: AccountId)
    requires
        state.inv(),
    ensures
        state.withdrawn(who).inv(),
        state.withdrawn(who).supply() + state.ledger_of(who).withdrawable(state.current_era)
            == state.supply(),
{
    let post = state.withdrawn(who);
    if state.ledgers.contains_key(who) {
        let before = state.ledgers[who];
        let after = before.withdrawn(state.current_era);
        assert(state.admits(before));
        lemma_withdrawn_sound(before, state.current_era);
        lemma_supply_shift(state, post, who, account_space());
        assert forall|a: AccountId| #[trigger] post.ledgers.contains_key(a) implies post.admits(
            post.ledgers[a],
        ) by {
            if a != who {
                assert(state.ledgers.contains_key(a));
            }
        }
        assert forall|c: CandidateId| #[trigger] post.votes[c] == post.support(c) by {
            assert(state.votes[c] == state.support(c));
            lemma_support_shift(state, post, who, c, account_space());
        }
    } else {
        reveal(Seq::filter);
        assert(state.ledger_of(who).withdrawable(state.current_era) == 0);
    }
}

/// An accepted nomination keeps the invariant and the supply.
pub proof fn lemma_nominated_inv(state: State, who: AccountId, targets: Seq<CandidateId>)
    requires
        state.inv(),
        state.nominate_error(who, targets) is None,
    ensures
        state.nominated(who, targets).inv(),
        state.nominated(who, targets).supply() == state.supply(),
{
    let post = state.nominated(who, targets);
    lemma_supply_shift(state, post, who, account_space());
    lemma_votes_follow(state, post, who);
}

/// Withdrawing all nominations keeps the invariant and the supply.
pub proof fn lemma_chilled_inv(state: State, who: AccountId)
    requires
        state.inv(),
    ensures
        state.chilled(who).inv(),
        state.chilled(who).supply() == state.supply(),
{
    let post = state.chilled(who);
    lemma_supply_shift(state, post, who, account_space());
    lemma_votes_follow(state, post, who);
}

/// Advancing the era keeps the invariant and the supply.
pub proof fn lemma_advanced_inv(state: State, era: EraIndex)
    requires
        state.inv(),
        state.current_era <= era,
    ensures
        state.advanced(era).inv(),
        state.advanced(era).supply() == state.supply(),
{
    let post = state.advanced(era);
    lemma_same_accounts(state, post, account_space());
    assert forall|a: AccountId| #[trigger] post.ledgers.contains_key(a) implies post.admits(
        post.ledgers[a],
    ) by {
        assert(state.admits(state.ledgers[a]));
        let chunks = state.ledgers[a].unlocking;
        assert forall|i: int| 0 <= i < chunks.len() implies (#[trigger] chunks[i]).era
            <= post.maturity() by {
            assert(chunks[i].era <= state.maturity());
        }
    }
    assert forall|c: CandidateId| #[trigger] post.votes[c] == post.support(c) by {
        assert(state.votes[c] == state.support(c));
        lemma_support_shift(state, post, 0, c, account_space());
    }
}

/// A rebalance keeps the invariant and the supply.
pub proof fn lemma_rebalanced_inv(state: State, next: State)
    requires
        state.inv(),
        state.rebalances_to(next),
    ensures
        next.inv(),
        next.supply() == state.supply(),
{
    lemma_same_accounts(state, next, account_space());
    lemma_elected_set_distinct(state.votes, state.config.nominee_count as nat, next.elected);
    assert forall|c: CandidateId| #[trigger] next.votes[c] == next.support(c) by {
        assert(state.votes[c] == state.support(c));
        lemma_support_shift(state, next, 0, c, account_space());
    }
}

/// States with the same ledgers have the same supply.
proof fn lemma_same_accounts(pre: State, post: State, bound: nat)
    requires
        bound <= account_space(),
        pre.ledgers == post.ledgers,
    ensures
        pre.supply_below(bound) == post.supply_below(bound),
{
    lemma_supply_shift(pre, post, 0, bound);
}

/// The supply includes the total of each single ledger.
pub proof fn lemma_ledger_within_supply(state: State, who: AccountId)
    ensures
        state.ledger_of(who).total <= state.supply(),
{
    lemma_supply_covers(state, who, account_space());
}

/// The supply below a bound includes the total of each ledger below it.
proof fn lemma_supply_covers(state: State, who: AccountId, bound: nat)
    requires
        who < bound <= account_space(),
    ensures
        state.ledger_of(who).total <= state.supply_below(bound),
    decreases bound,
{
    if who < bound - 1 {
        lemma_supply_covers(state, who, (bound - 1) as nat);
    }
}

} // verus!
