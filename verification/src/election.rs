//! The election itself: the ledgers, nominations and votes of all accounts
//! behind the operations that keep them consistent.

use std::collections::HashMap;
use vstd::prelude::*;
use vstd::std_specs::hash::*;
use crate::invariants::{
    lemma_advanced_inv, lemma_bonded_inv, lemma_chilled_inv, lemma_initial_inv,
    lemma_ledger_within_supply, lemma_nominated_inv, lemma_rebalanced_inv, lemma_rebonded_inv,
    lemma_unbonded_inv, lemma_withdrawn_inv,
};
use crate::ledger::{lemma_withdrawn_sound, Ledger, LedgerView};
use crate::nominations::{check_targets, valid_targets};
use crate::primitives::{
    maturity, AccountId, Balance, CandidateId, Config, EraIndex, Error, LockUpdate,
};
use crate::ranking::elect;
use crate::state::State;
use crate::unlock_queue::reclaimable;
use crate::votes::{votes_after, Votes};

verus! {

broadcast use vstd::std_specs::hash::group_hash_axioms;

/// An election: one context object that owns every ledger, every nomination
/// list, the vote weights and the elected set.
pub struct Election {
    config: Config,
    current_era: EraIndex,
    ledgers: HashMap<AccountId, Ledger>,
    nominations: HashMap<AccountId, Vec<CandidateId>>,
    votes: Votes,
    elected: Vec<CandidateId>,
    locked: Balance,
}

impl View for Election {
    type V = State;

    closed spec fn view(&self) -> State {
        State {
            config: self.config,
            current_era: self.current_era,
            ledgers: self.ledgers@.map_values(|ledger: Ledger| ledger@),
            nominations: self.nominations@.map_values(|targets: Vec<CandidateId>| targets@),
            votes: self.votes@,
            elected: self.elected@,
        }
    }
}

impl Election {
    /// Whether the running sum of everything locked equals the supply.
    pub closed spec fn tracks_supply(&self) -> bool {
        self.locked == self@.supply()
    }

    /// Whether the election is well formed: its state satisfies the invariant
    /// and its running sum of everything locked is right.
    pub open spec fn wf(&self) -> bool {
        self@.inv() && self.tracks_supply()
    }

    /// A new election without ledgers, nominations or votes, in era zero.
    pub fn new(config: Config) -> (election: Election)
        ensures
            election.wf(),
            election@ == State::initial(config),
    {
        let election = Election {
            config,
            current_era: 0,
            ledgers: HashMap::new(),
            nominations: HashMap::new(),
            votes: Votes::new(),
            elected: Vec::new(),
            locked: 0,
        };
        proof {
            lemma_initial_inv(config);
            assert(election@.ledgers =~= Map::<AccountId, LedgerView>::empty());
            assert(election@.nominations =~= Map::<AccountId, Seq<CandidateId>>::empty());
        }
        election
    }

    /// The fixed parameters.
    pub fn config(&self) -> (config: Config)
        ensures
            config == self@.config,
    {
        self.config
    }

    /// The current era.
    pub fn current_era(&self) -> (era: EraIndex)
        ensures
            era == self@.current_era,
    {
        self.current_era
    }

    /// The ledger of `who`, if `who` has one.
    pub fn ledger(&self, who: AccountId) -> (ledger: Option<&Ledger>)
        ensures
            match ledger {
                Some(ledger) => self@.ledgers.contains_key(who) && ledger@ == self@.ledgers[who],
                None => !self@.ledgers.contains_key(who),
            },
    {
        self.ledgers.get(&who)
    }

    /// The candidates that `who` nominates, empty if `who` nominates none.
    pub fn nominations(&self, who: AccountId) -> (targets: &[CandidateId])
        ensures
            targets@ == self@.targets_of(who),
    {
        match self.nominations.get(&who) {
            Some(targets) => targets.as_slice(),
            None => &[],
        }
    }

    /// The vote weight of `candidate`.
    pub fn votes(&self, candidate: CandidateId) -> (weight: Balance)
        ensures
            weight == self@.votes[candidate],
    {
        self.votes.weight(candidate)
    }

    /// The elected set as of the last rebalance.
    pub fn nominees(&self) -> (elected: &Vec<CandidateId>)
        ensures
            elected@ == self@.elected,
    {
        &self.elected
    }

    /// The sum of all ledger totals: everything the ledgers keep locked.
    pub fn total_locked(&self) -> (locked: Balance)
        requires
            self.wf(),
        ensures
            locked == self@.supply(),
    {
        self.locked
    }

    /// The stake that a bond of `amount` would add for `who` with the free
    /// balance `free`: the amount, capped at the part of `free` that the
    /// ledger of `who` does not lock yet.
    pub fn bond_extra(&self, who: AccountId, amount: Balance, free: Balance) -> (extra: Balance)
        ensures
            extra == self@.bond_extra(who, amount, free),
    {
        let total = match self.ledgers.get(&who) {
            Some(ledger) => ledger.total(),
            None => 0,
        };
        let room = if free >= total {
            free - total
        } else {
            0
        };
        if amount <= room {
            amount
        } else {
            room
        }
    }

    /// Moves the votes of the candidates that `who` nominates from
    /// `old_active` to `new_active`.
    fn move_votes(&mut self, who: AccountId, old_active: Balance, new_active: Balance)
        requires
            old(self)@.nominations.contains_key(who) ==> old(
                self,
            )@.nominations[who].no_duplicates(),
        ensures
            final(self)@ == (State {
                votes: votes_after(
                    old(self)@.votes,
                    old_active as nat,
                    old(self)@.targets_of(who),
                    new_active as nat,
                    old(self)@.targets_of(who),
                ),
                ..old(self)@
            }),
            final(self).locked == old(self).locked,
    {
        let targets: &[CandidateId] = match self.nominations.get(&who) {
            Some(targets) => targets.as_slice(),
            None => &[],
        };
        assert(targets@ == old(self)@.targets_of(who));
        self.votes.update_votes(old_active, targets, new_active, targets);
    }

    /// Bonds up to `amount` for `who`, whose free balance is `free`.
    ///
    /// The stake added is `amount`, capped at the part of `free` that the
    /// ledger does not lock yet. The bond is rejected if the active stake
    /// would end up below the minimum bond. Otherwise the ledger is created
    /// or topped up, the votes of the candidates that `who` nominates rise by
    /// the stake added, and the result is the lock to place: the new total.
    ///
    /// Everything locked must still fit in a [`Balance`] after the bond;
    /// [`Election::total_locked`] and [`Election::bond_extra`] give the two
    /// parts of that sum.
    pub fn bond(&mut self, who: AccountId, amount: Balance, free: Balance) -> (result: Result<
        LockUpdate,
        Error,
    >)
        requires
            old(self).wf(),
            old(self)@.supply() + old(self)@.bond_extra(who, amount, free) <= Balance::MAX,
        ensures
            final(self).wf(),
            match result {
                Ok(lock) => {
                    &&& old(self)@.bond_error(who, amount, free) is None
                    &&& final(self)@ == old(self)@.bonded(who, amount, free)
                    &&& lock == LockUpdate::Lock(final(self)@.ledger_of(who).total as Balance)
                },
                Err(error) => {
                    &&& old(self)@.bond_error(who, amount, free) == Some(error)
                    &&& final(self)@ == old(self)@
                },
            },
    {
        let active = match self.ledgers.get(&who) {
            Some(ledger) => ledger.active(),
            None => 0,
        };
        let extra = self.bond_extra(who, amount, free);
        proof {
            if old(self)@.ledgers.contains_key(who) {
                assert(old(self)@.admits(old(self)@.ledgers[who]));
            }
            lemma_ledger_within_supply(old(self)@, who);
            lemma_bonded_inv(old(self)@, who, amount, free);
        }
        let new_active = active + extra;
        if new_active < self.config.min_bond_threshold {
            return Err(Error::BelowMinBondThreshold);
        }
        self.move_votes(who, active, new_active);
        let mut ledger = match self.ledgers.remove(&who) {
            Some(ledger) => ledger,
            None => Ledger::new(),
        };
        ledger.bond(extra);
        let locked = ledger.total();
        self.ledgers.insert(who, ledger);
        self.locked = self.locked + extra;
        proof {
            let after = old(self)@.bonded(who, amount, free);
            assert(self@.ledgers =~= after.ledgers);
            assert(self@.nominations =~= after.nominations);
        }
        Ok(LockUpdate::Lock(locked))
    }

    /// Unbonds up to `amount` of the active stake of `who`.
    ///
    /// What is moved is `amount`, capped at the active stake; it matures the
    /// unbonding duration after the current era and joins the tail chunk if
    /// that matures at the same era. Moving nothing changes nothing. The
    /// unbond is rejected if `who` has no ledger, if the queue is full and
    /// cannot absorb the stake, or if the remaining active stake would be
    /// nonzero but below the minimum bond. Otherwise the votes of the
    /// candidates that `who` nominates fall by the stake moved.
    pub fn unbond(&mut self, who: AccountId, amount: Balance) -> (result: Result<(), Error>)
        requires
            old(self).wf(),
        ensures
            final(self).wf(),
            match result {
                Ok(_) => {
                    &&& old(self)@.unbond_error(who, amount) is None
                    &&& final(self)@ == old(self)@.unbonded(who, amount)
                },
                Err(error) => {
                    &&& old(self)@.unbond_error(who, amount) == Some(error)
                    &&& final(self)@ == old(self)@
                },
            },
    {
        let era = maturity(self.current_era, self.config.unbonding_duration);
        let verdict = match self.ledgers.get(&who) {
            Some(ledger) => ledger.check_unbond(
                amount,
                era,
                self.config.min_bond_threshold,
                self.config.max_unlock_chunks,
            ),
            None => Err(Error::NotBonded),
        };
        let moved = match verdict {
            Ok(moved) => moved,
            Err(error) => {
                return Err(error);
            },
        };
        if moved == 0 {
            return Ok(());
        }
        let mut ledger = match self.ledgers.remove(&who) {
            Some(ledger) => ledger,
            None => Ledger::new(),
        };
        proof {
            assert(old(self)@.admits(old(self)@.ledgers[who]));
            lemma_unbonded_inv(old(self)@, who, amount);
        }
        let active = ledger.active();
        ledger.unbond(amount, era);
        self.ledgers.insert(who, ledger);
        self.move_votes(who, active, active - moved);
        proof {
            let after = old(self)@.unbonded(who, amount);
            assert(self@.ledgers =~= after.ledgers);
        }
        Ok(())
    }

    /// Rebonds up to `amount` of the stake that `who` is unbonding.
    ///
    /// Stake returns from the tail of the unlock queue, the most recently
    /// unbonded first, whole chunks and then a part of one. The result is the
    /// stake actually moved: `amount`, capped at what the queue holds. The
    /// votes of the candidates that `who` nominates rise by it. The rebond is
    /// rejected only if `who` has no ledger.
    pub fn rebond(&mut self, who: AccountId, amount: Balance) -> (result: Result<Balance, Error>)
        requires
            old(self).wf(),
        ensures
            final(self).wf(),
            match result {
                Ok(moved) => {
                    &&& old(self)@.rebond_error(who) is None
                    &&& final(self)@ == old(self)@.rebonded(who, amount)
                    &&& moved == reclaimable(old(self)@.ledgers[who].unlocking, amount as nat)
                },
                Err(error) => {
                    &&& old(self)@.rebond_error(who) == Some(error)
                    &&& final(self)@ == old(self)@
                },
            },
    {
        let mut ledger = match self.ledgers.remove(&who) {
            Some(ledger) => ledger,
            None => {
                assert(self@.ledgers =~= old(self)@.ledgers);
                return Err(Error::NotBonded);
            },
        };
        proof {
            assert(old(self)@.admits(old(self)@.ledgers[who]));
            lemma_rebonded_inv(old(self)@, who, amount);
            assert(self@.nominations == old(self)@.nominations);
            if old(self)@.nominations.contains_key(who) {
                assert(valid_targets(
                    old(self)@.nominations[who],
                    old(self)@.config.max_nominations,
                ));
            }
        }
        let active = ledger.active();
        let moved = ledger.rebond(amount);
        let new_active = ledger.active();
        self.ledgers.insert(who, ledger);
        self.move_votes(who, active, new_active);
        proof {
            let after = old(self)@.rebonded(who, amount);
            assert(self@.ledgers =~= after.ledgers);
        }
        Ok(moved)
    }

    /// Withdraws for `who` every chunk that has matured by the current era.
    ///
    /// The ledger's total falls by the stake released, and a ledger that ends
    /// up with nothing bonded and nothing pending is removed. Nothing matured,
    /// or no ledger, is no error. The result is what to do with the lock.
    pub fn withdraw_unbonded(&mut self, who: AccountId) -> (lock: LockUpdate)
        requires
            old(self).wf(),
        ensures
            final(self).wf(),
            final(self)@ == old(self)@.withdrawn(who),
            lock == old(self)@.withdraw_lock(who),
    {
        let mut ledger = match self.ledgers.remove(&who) {
            Some(ledger) => ledger,
            None => {
                assert(self@.ledgers =~= old(self)@.ledgers);
                return LockUpdate::Keep;
            },
        };
        proof {
            assert(old(self)@.admits(old(self)@.ledgers[who]));
            lemma_ledger_within_supply(old(self)@, who);
            lemma_withdrawn_inv(old(self)@, who);
            lemma_withdrawn_sound(old(self)@.ledgers[who], old(self)@.current_era);
        }
        let released = ledger.withdraw_unbonded(self.current_era);
        self.locked = self.locked - released;
        if ledger.is_empty() {
            assert(self@.ledgers =~= old(self)@.withdrawn(who).ledgers);
            LockUpdate::Release
        } else {
            let total = ledger.total();
            self.ledgers.insert(who, ledger);
            assert(self@.ledgers =~= old(self)@.withdrawn(who).ledgers);
            if released == 0 {
                LockUpdate::Keep
            } else {
                LockUpdate::Lock(total)
            }
        }
    }

    /// Replaces the nominations of `who` by `targets`.
    ///
    /// The nomination is rejected if `who` has no ledger, and otherwise if
    /// `targets` is empty, longer than the largest number of nominations, or
    /// names a candidate twice. Otherwise the active stake of `who` leaves the
    /// candidates named only before and reaches those named only now.
    pub fn nominate(&mut self, who: AccountId, targets: Vec<CandidateId>) -> (result: Result<
        (),
        Error,
    >)
        requires
            old(self).wf(),
        ensures
            final(self).wf(),
            match result {
                Ok(_) => {
                    &&& old(self)@.nominate_error(who, targets@) is None
                    &&& final(self)@ == old(self)@.nominated(who, targets@)
                },
                Err(error) => {
                    &&& old(self)@.nominate_error(who, targets@) == Some(error)
                    &&& final(self)@ == old(self)@
                },
            },
    {
        let active = match self.ledgers.get(&who) {
            Some(ledger) => ledger.active(),
            None => {
                return Err(Error::NotBonded);
            },
        };
        if !check_targets(targets.as_slice(), self.config.max_nominations) {
            return Err(Error::InvalidTargetsLength);
        }
        let previous: &[CandidateId] = match self.nominations.get(&who) {
            Some(previous) => previous.as_slice(),
            None => &[],
        };
        proof {
            assert(previous@ == old(self)@.targets_of(who));
            lemma_nominated_inv(old(self)@, who, targets@);
        }
        self.votes.update_votes(active, previous, active, targets.as_slice());
        self.nominations.insert(who, targets);
        proof {
            let after = old(self)@.nominated(who, targets@);
            assert(self@.nominations =~= after.nominations);
        }
        Ok(())
    }

    /// Withdraws all nominations of `who`: the list is cleared and the active
    /// stake of `who` leaves every candidate it named. Without nominations
    /// nothing changes.
    pub fn chill(&mut self, who: AccountId)
        requires
            old(self).wf(),
        ensures
            final(self).wf(),
            final(self)@ == old(self)@.chilled(who),
    {
        let active = match self.ledgers.get(&who) {
            Some(ledger) => ledger.active(),
            None => 0,
        };
        let previous: &[CandidateId] = match self.nominations.get(&who) {
            Some(previous) => previous.as_slice(),
            None => &[],
        };
        proof {
            assert(previous@ == old(self)@.targets_of(who));
            lemma_chilled_inv(old(self)@, who);
        }
        let none: &[CandidateId] = &[];
        assert(none@ =~= Seq::<CandidateId>::empty());
        self.votes.update_votes(active, previous, 0, none);
        self.nominations.remove(&who);
        proof {
            let after = old(self)@.chilled(who);
            assert(self@.nominations =~= after.nominations);
        }
    }

    /// Advances the current era to `era`, which is not before the current
    /// one. Nothing is withdrawn: each account withdraws for itself.
    pub fn on_new_era(&mut self, era: EraIndex)
        requires
            old(self).wf(),
            old(self)@.current_era <= era,
        ensures
            final(self).wf(),
            final(self)@ == old(self)@.advanced(era),
    {
        proof {
            lemma_advanced_inv(old(self)@, era);
        }
        self.current_era = era;
    }

    /// Replaces the elected set by the candidates that now have the largest
    /// vote weight.
    pub fn rebalance(&mut self)
        requires
            old(self).wf(),
        ensures
            final(self).wf(),
            old(self)@.rebalances_to(final(self)@),
    {
        let elected = elect(&self.votes, self.config.nominee_count);
        self.elected = elected;
        proof {
            lemma_rebalanced_inv(old(self)@, self@);
        }
    }
}

} // verus!
