//! The mathematical model of an election: its state, the transition that
//! each operation makes, and the invariant that every transition keeps.

use vstd::prelude::*;
use crate::ledger::LedgerView;
use crate::nominations::valid_targets;
use crate::primitives::{
    maturity_era, AccountId, Balance, CandidateId, Config, EraIndex, Error, LockUpdate,
};
use crate::ranking::is_elected_set;
use crate::unlock_queue::matures_by;
use crate::votes::{backing, votes_after};

verus! {

/// The number of account identities.
pub open spec fn account_space() -> nat {
    0x1_0000_0000_0000_0000
}

/// The state of an election.
pub struct State {
    /// The fixed parameters.
    pub config: Config,
    /// The current era.
    pub current_era: EraIndex,
    /// The ledger of every account that has one.
    pub ledgers: Map<AccountId, LedgerView>,
    /// The nominations of every account that has placed some.
    pub nominations: Map<AccountId, Seq<CandidateId>>,
    /// The vote weight of every candidate.
    pub votes: Map<CandidateId, nat>,
    /// The elected set as of the last rebalance.
    pub elected: Seq<CandidateId>,
}

impl State {
    /// The state of a new election: no ledgers, no nominations, no votes.
    pub open spec fn initial(config: Config) -> State {
        State {
            config,
            current_era: 0,
            ledgers: Map::empty(),
            nominations: Map::empty(),
            votes: Map::total(|c: CandidateId| 0nat),
            elected: Seq::empty(),
        }
    }

    /// The ledger of `who`, or the zero ledger if `who` has none.
    pub open spec fn ledger_of(self, who: AccountId) -> LedgerView {
        if self.ledgers.contains_key(who) {
            self.ledgers[who]
        } else {
            LedgerView::zero()
        }
    }

    /// The nominations of `who`, or the empty list if `who` has none.
    pub open spec fn targets_of(self, who: AccountId) -> Seq<CandidateId> {
        if self.nominations.contains_key(who) {
            self.nominations[who]
        } else {
            Seq::empty()
        }
    }

    /// The era at which stake unbonded now matures.
    pub open spec fn maturity(self) -> EraIndex {
        maturity_era(self.current_era, self.config.unbonding_duration)
    }

    /// The active stake with which `who` backs `candidate`.
    pub open spec fn stake(self, who: AccountId, candidate: CandidateId) -> nat {
        backing(self.ledger_of(who).active, self.targets_of(who), candidate)
    }

    /// The active stake with which the accounts below `bound` back `candidate`.
    pub open spec fn support_below(self, candidate: CandidateId, bound: nat) -> nat
        decreases bound,
    {
        if bound == 0 {
            0
        } else {
            self.support_below(candidate, (bound - 1) as nat) + self.stake(
                (bound - 1) as AccountId,
                candidate,
            )
        }
    }

    /// The active stake of all accounts that nominate `candidate`.
    pub open spec fn support(self, candidate: CandidateId) -> nat {
        self.support_below(candidate, account_space())
    }

    /// The sum of the ledger totals of the accounts below `bound`.
    pub open spec fn supply_below(self, bound: nat) -> nat
        decreases bound,
    {
        if bound == 0 {
            0
        } else {
            self.supply_below((bound - 1) as nat) + self.ledger_of((bound - 1) as AccountId).total
        }
    }

    /// The sum of all ledger totals: everything the ledgers keep locked.
    pub open spec fn supply(self) -> nat {
        self.supply_below(account_space())
    }

    /// Whether `ledger` may stand in this state: it is balanced over an
    /// ordered queue that respects the queue bound, and none of its chunks
    /// matures later than stake unbonded now would.
    pub open spec fn admits(self, ledger: LedgerView) -> bool {
        &&& ledger.sound()
        &&& ledger.unlocking.len() <= self.config.max_unlock_chunks
        &&& matures_by(ledger.unlocking, self.maturity())
    }

    /// Every candidate's weight is the active stake of its nominators.
    pub open spec fn votes_match(self) -> bool {
        &&& forall|c: CandidateId| #[trigger] self.votes.contains_key(c)
        &&& forall|c: CandidateId| #[trigger] self.votes[c] == self.support(c)
    }

    /// The invariant of an election: every ledger is admissible, every
    /// nomination list is valid, the votes match the nominators' active
    /// stake, the locked supply fits in a [`Balance`], and the elected set
    /// names at most as many candidates as there are seats, none twice.
    pub open spec fn inv(self) -> bool {
        &&& forall|who: AccountId| #[trigger]
            self.ledgers.contains_key(who) ==> self.admits(self.ledgers[who])
        &&& forall|who: AccountId| #[trigger]
            self.nominations.contains_key(who) ==> valid_targets(
                self.nominations[who],
                self.config.max_nominations,
            )
        &&& self.votes_match()
        &&& self.supply() <= Balance::MAX
        &&& self.elected.len() <= self.config.nominee_count
        &&& self.elected.no_duplicates()
    }

    /// This state with the ledger of `who` replaced by `ledger` and the votes
    /// of the candidates that `who` nominates moved to the new active stake.
    pub open spec fn with_ledger(self, who: AccountId, ledger: LedgerView) -> State {
        State {
            ledgers: self.ledgers.insert(who, ledger),
            votes: votes_after(
                self.votes,
                self.ledger_of(who).active,
                self.targets_of(who),
                ledger.active,
                self.targets_of(who),
            ),
            ..self
        }
    }

    /// The stake that a bond of `amount` adds when the account's free balance
    /// is `free`: the amount, capped at the free balance not yet locked.
    pub open spec fn bond_extra(self, who: AccountId, amount: Balance, free: Balance) -> nat {
        let total = self.ledger_of(who).total;
        let room = if free >= total {
            (free - total) as nat
        } else {
            0
        };
        if amount <= room {
            amount as nat
        } else {
            room
        }
    }

    /// Why a bond is rejected, if it is: the resulting active stake would be
    /// below the minimum bond.
    pub open spec fn bond_error(self, who: AccountId, amount: Balance, free: Balance) -> Option<
        Error,
    > {
        if self.ledger_of(who).active + self.bond_extra(who, amount, free)
            < self.config.min_bond_threshold {
            Some(Error::BelowMinBondThreshold)
        } else {
            None
        }
    }

    /// The state after an accepted bond.
    pub open spec fn bonded(self, who: AccountId, amount: Balance, free: Balance) -> State {
        self.with_ledger(who, self.ledger_of(who).bonded(self.bond_extra(who, amount, free)))
    }

    /// Why an unbond is rejected, if it is.
    pub open spec fn unbond_error(self, who: AccountId, amount: Balance) -> Option<Error> {
        if !self.ledgers.contains_key(who) {
            Some(Error::NotBonded)
        } else {
            self.ledgers[who].unbond_error(
                amount as nat,
                self.maturity(),
                self.config.min_bond_threshold,
                self.config.max_unlock_chunks,
            )
        }
    }

    /// The state after an accepted unbond. Moving nothing changes nothing.
    pub open spec fn unbonded(self, who: AccountId, amount: Balance) -> State {
        if self.ledgers[who].unbondable(amount as nat) == 0 {
            self
        } else {
            self.with_ledger(who, self.ledgers[who].unbonded(amount as nat, self.maturity()))
        }
    }

    /// Why a rebond is rejected, if it is: the account has no ledger.
    pub open spec fn rebond_error(self, who: AccountId) -> Option<Error> {
        if !self.ledgers.contains_key(who) {
            Some(Error::NotBonded)
        } else {
            None
        }
    }

    /// The state after an accepted rebond.
    pub open spec fn rebonded(self, who: AccountId, amount: Balance) -> State {
        self.with_ledger(who, self.ledgers[who].rebonded(amount as nat))
    }

    /// The state after `who` has withdrawn everything that has matured. A
    /// ledger that ends up empty is removed. The votes stay as they are.
    pub open spec fn withdrawn(self, who: AccountId) -> State {
        if !self.ledgers.contains_key(who) {
            self
        } else {
            let ledger = self.ledgers[who].withdrawn(self.current_era);
            if ledger.is_empty() {
                State { ledgers: self.ledgers.remove(who), ..self }
            } else {
                State { ledgers: self.ledgers.insert(who, ledger), ..self }
            }
        }
    }

    /// What a withdrawal by `who` asks of the balances collaborator: nothing
    /// if nothing left the ledger, the release of the lock if the ledger is
    /// gone, and the new total otherwise.
    pub open spec fn withdraw_lock(self, who: AccountId) -> LockUpdate {
        if !self.ledgers.contains_key(who) {
            LockUpdate::Keep
        } else {
            let ledger = self.ledgers[who].withdrawn(self.current_era);
            if ledger.is_empty() {
                LockUpdate::Release
            } else if ledger.total == self.ledgers[who].total {
                LockUpdate::Keep
            } else {
                LockUpdate::Lock(ledger.total as Balance)
            }
        }
    }

    /// Why a nomination is rejected, if it is.
    pub open spec fn nominate_error(self, who: AccountId, targets: Seq<CandidateId>) -> Option<
        Error,
    > {
        if !self.ledgers.contains_key(who) {
            Some(Error::NotBonded)
        } else if !valid_targets(targets, self.config.max_nominations) {
            Some(Error::InvalidTargetsLength)
        } else {
            None
        }
    }

    /// The state after an accepted nomination: the list is replaced, and the
    /// active stake of `who` leaves the old candidates and reaches the new ones.
    pub open spec fn nominated(self, who: AccountId, targets: Seq<CandidateId>) -> State {
        State {
            nominations: self.nominations.insert(who, targets),
            votes: votes_after(
                self.votes,
                self.ledger_of(who).active,
                self.targets_of(who),
                self.ledger_of(who).active,
                targets,
            ),
            ..self
        }
    }

    /// The state after `who` has withdrawn all nominations.
    pub open spec fn chilled(self, who: AccountId) -> State {
        State {
            nominations: self.nominations.remove(who),
            votes: votes_after(
                self.votes,
                self.ledger_of(who).active,
                self.targets_of(who),
                0,
                Seq::empty(),
            ),
            ..self
        }
    }

    /// The state after the era has advanced to `era`.
    pub open spec fn advanced(self, era: EraIndex) -> State {
        State { current_era: era, ..self }
    }

    /// Whether `next` is this state after a rebalance: only the elected set
    /// differs, and it is the elected set of the current votes.
    pub open spec fn rebalances_to(self, next: State) -> bool {
        &&& next == State { elected: next.elected, ..self }
        &&& is_elected_set(self.votes, self.config.nominee_count as nat, next.elected)
    }
}

} // verus!
