//! The bonding ledger of one account: total and active stake over the
//! account's unlock queue.

use vstd::prelude::*;
use crate::primitives::{Balance, EraIndex, Error};
use crate::unlock_queue::{
    accepts, enqueue, enqueued, lemma_enqueued, lemma_reclaimed, lemma_unmatured, matures_by,
    pending, queue_ordered, reclaim, reclaimable, reclaimed, release_matured, unmatured,
    UnlockChunk,
};

verus! {

/// The mathematical content of a [`Ledger`].
pub struct LedgerView {
    /// Active stake plus everything in the unlock queue.
    pub total: nat,
    /// Stake that counts toward votes and can still be unbonded.
    pub active: nat,
    /// The pending unlock chunks, head first.
    pub unlocking: Seq<UnlockChunk>,
}

impl LedgerView {
    /// The ledger of an account that has never bonded.
    pub open spec fn zero() -> LedgerView {
        LedgerView { total: 0, active: 0, unlocking: Seq::empty() }
    }

    /// The total is the active stake plus the stake of every pending chunk.
    pub open spec fn balanced(self) -> bool {
        self.total == self.active + pending(self.unlocking)
    }

    /// The ledger is balanced over an ordered queue.
    pub open spec fn sound(self) -> bool {
        self.balanced() && queue_ordered(self.unlocking)
    }

    /// Nothing is bonded and nothing is pending.
    pub open spec fn is_empty(self) -> bool {
        self.total == 0 && self.unlocking.len() == 0
    }

    /// The ledger after `extra` has been added to the active stake.
    pub open spec fn bonded(self, extra: nat) -> LedgerView {
        LedgerView {
            total: self.total + extra,
            active: self.active + extra,
            unlocking: self.unlocking,
        }
    }

    /// The stake that an unbond of `amount` moves out of the active part.
    pub open spec fn unbondable(self, amount: nat) -> nat {
        if amount <= self.active {
            amount
        } else {
            self.active
        }
    }

    /// Why an unbond of `amount` maturing at `era` is rejected, if it is.
    /// Moving nothing is never rejected. Otherwise the queue must accept the
    /// stake, and what stays active must be zero or at least `min_bond`.
    pub open spec fn unbond_error(
        self,
        amount: nat,
        era: EraIndex,
        min_bond: Balance,
        max_chunks: usize,
    ) -> Option<Error> {
        let moved = self.unbondable(amount);
        let remaining = self.active - moved;
        if moved == 0 {
            None
        } else if !accepts(self.unlocking, era, max_chunks) {
            Some(Error::MaxUnlockChunksExceeded)
        } else if remaining != 0 && remaining < min_bond {
            Some(Error::BelowMinBondThreshold)
        } else {
            None
        }
    }

    /// The ledger after an accepted unbond of `amount` maturing at `era`.
    pub open spec fn unbonded(self, amount: nat, era: EraIndex) -> LedgerView {
        let moved = self.unbondable(amount);
        if moved == 0 {
            self
        } else {
            LedgerView {
                total: self.total,
                active: (self.active - moved) as nat,
                unlocking: enqueued(self.unlocking, moved as Balance, era),
            }
        }
    }

    /// The ledger after up to `amount` has been taken back from the queue's tail.
    pub open spec fn rebonded(self, amount: nat) -> LedgerView {
        LedgerView {
            total: self.total,
            active: self.active + reclaimable(self.unlocking, amount),
            unlocking: reclaimed(self.unlocking, amount),
        }
    }

    /// The stake of the chunks that have matured by `current_era`.
    pub open spec fn withdrawable(self, current_era: EraIndex) -> nat {
        (pending(self.unlocking) - pending(unmatured(self.unlocking, current_era))) as nat
    }

    /// The ledger after every chunk matured by `current_era` has been released.
    pub open spec fn withdrawn(self, current_era: EraIndex) -> LedgerView {
        LedgerView {
            total: (self.total - self.withdrawable(current_era)) as nat,
            active: self.active,
            unlocking: unmatured(self.unlocking, current_era),
        }
    }
}

/// Bonding keeps a ledger sound.
pub proof fn lemma_bonded_sound(ledger: LedgerView, extra: nat)
    requires
        ledger.sound(),
    ensures
        ledger.bonded(extra).sound(),
{
}

/// An accepted unbond keeps a ledger sound, keeps its total, and respects the
/// queue bound and the maturity limit.
pub proof fn lemma_unbonded_sound(
    ledger: LedgerView,
    amount: nat,
    era: EraIndex,
    min_bond: Balance,
    max_chunks: usize,
)
    requires
        ledger.sound(),
        ledger.total <= Balance::MAX,
        matures_by(ledger.unlocking, era),
        ledger.unlocking.len() <= max_chunks,
        ledger.unbond_error(amount, era, min_bond, max_chunks) is None,
    ensures
        ledger.unbonded(amount, era).sound(),
        ledger.unbonded(amount, era).total == ledger.total,
        ledger.unbonded(amount, era).unlocking.len() <= max_chunks,
        matures_by(ledger.unbonded(amount, era).unlocking, era),
{
    let moved = ledger.unbondable(amount);
    if moved > 0 {
        lemma_enqueued(ledger.unlocking, moved as Balance, era);
    }
}

/// A rebond keeps a ledger sound, keeps its total, and never lengthens the queue.
pub proof fn lemma_rebonded_sound(ledger: LedgerView, amount: nat)
    requires
        ledger.sound(),
    ensures
        ledger.rebonded(amount).sound(),
        ledger.rebonded(amount).total == ledger.total,
        ledger.rebonded(amount).unlocking.len() <= ledger.unlocking.len(),
        forall|limit: EraIndex|
            matures_by(ledger.unlocking, limit) ==> #[trigger] matures_by(
                ledger.rebonded(amount).unlocking,
                limit,
            ),
{
    lemma_reclaimed(ledger.unlocking, amount);
}

/// A withdrawal keeps a ledger sound, lowers its total by what was released,
/// and leaves only chunks that are still locked.
pub proof fn lemma_withdrawn_sound(ledger: LedgerView, current_era: EraIndex)
    requires
        ledger.sound(),
    ensures
        ledger.withdrawn(current_era).sound(),
        ledger.withdrawn(current_era).total + ledger.withdrawable(current_era) == ledger.total,
        ledger.withdrawn(current_era).unlocking.len() <= ledger.unlocking.len(),
        forall|limit: EraIndex|
            matures_by(ledger.unlocking, limit) ==> #[trigger] matures_by(
                ledger.withdrawn(current_era).unlocking,
                limit,
            ),
{
    lemma_unmatured(ledger.unlocking, current_era);
}

/// The bonding ledger of one account.
pub struct Ledger {
    total: Balance,
    active: Balance,
    unlocking: Vec<UnlockChunk>,
}

impl View for Ledger {
    type V = LedgerView;

    closed spec fn view(&self) -> LedgerView {
        LedgerView {
            total: self.total as nat,
            active: self.active as nat,
            unlocking: self.unlocking@,
        }
    }
}

impl Ledger {
    /// A ledger with nothing bonded and nothing pending.
    pub fn new() -> (ledger: Ledger)
        ensures
            ledger@ == LedgerView::zero(),
    {
        Ledger { total: 0, active: 0, unlocking: Vec::new() }
    }

    /// Active stake plus everything in the unlock queue.
    pub fn total(&self) -> (total: Balance)
        ensures
            total == self@.total,
    {
        self.total
    }

    /// The stake that counts toward votes.
    pub fn active(&self) -> (active: Balance)
        ensures
            active == self@.active,
    {
        self.active
    }

    /// The number of pending unlock chunks.
    pub fn unlocking_len(&self) -> (len: usize)
        ensures
            len == self@.unlocking.len(),
    {
        self.unlocking.len()
    }

    /// The pending unlock chunks, head first.
    pub fn unlocking(&self) -> (chunks: &Vec<UnlockChunk>)
        ensures
            chunks@ == self@.unlocking,
    {
        &self.unlocking
    }

    /// Whether nothing is bonded and nothing is pending.
    pub fn is_empty(&self) -> (empty: bool)
        ensures
            empty == self@.is_empty(),
    {
        self.total == 0 && self.unlocking.len() == 0
    }

    /// Adds `extra` to the active stake.
    pub(crate) fn bond(&mut self, extra: Balance)
        requires
            old(self)@.balanced(),
            old(self)@.total + extra <= Balance::MAX,
        ensures
            final(self)@ == old(self)@.bonded(extra as nat),
    {
        self.total = self.total + extra;
        self.active = self.active + extra;
    }

    /// Decides whether an unbond of `amount` maturing at `era` is accepted,
    /// and if so how much stake it moves.
    pub fn check_unbond(
        &self,
        amount: Balance,
        era: EraIndex,
        min_bond: Balance,
        max_chunks: usize,
    ) -> (result: Result<Balance, Error>)
        ensures
            match result {
                Ok(moved) => {
                    &&& self@.unbond_error(amount as nat, era, min_bond, max_chunks) is None
                    &&& moved == self@.unbondable(amount as nat)
                },
                Err(error) => self@.unbond_error(amount as nat, era, min_bond, max_chunks)
                    == Some(error),
            },
    {
        let moved = if amount <= self.active {
            amount
        } else {
            self.active
        };
        if moved == 0 {
            return Ok(0);
        }
        let n = self.unlocking.len();
        if !(n < max_chunks || (n > 0 && self.unlocking[n - 1].era == era)) {
            return Err(Error::MaxUnlockChunksExceeded);
        }
        let remaining = self.active - moved;
        if remaining != 0 && remaining < min_bond {
            return Err(Error::BelowMinBondThreshold);
        }
        Ok(moved)
    }

    /// Moves up to `amount` of the active stake into the unlock queue, to
    /// mature at `era`.
    pub(crate) fn unbond(&mut self, amount: Balance, era: EraIndex)
        requires
            old(self)@.balanced(),
        ensures
            final(self)@ == old(self)@.unbonded(amount as nat, era),
    {
        let moved = if amount <= self.active {
            amount
        } else {
            self.active
        };
        if moved > 0 {
            self.active = self.active - moved;
            enqueue(&mut self.unlocking, moved, era);
        }
    }

    /// Moves up to `amount` back from the tail of the unlock queue into the
    /// active stake and reports how much was moved.
    pub(crate) fn rebond(&mut self, amount: Balance) -> (moved: Balance)
        requires
            old(self)@.balanced(),
        ensures
            moved == reclaimable(old(self)@.unlocking, amount as nat),
            final(self)@ == old(self)@.rebonded(amount as nat),
    {
        let moved = reclaim(&mut self.unlocking, amount);
        self.active = self.active + moved;
        moved
    }

    /// Releases every chunk that has matured by `current_era` and reports the
    /// stake that left the ledger.
    pub(crate) fn withdraw_unbonded(&mut self, current_era: EraIndex) -> (released: Balance)
        requires
            old(self)@.balanced(),
        ensures
            released == old(self)@.withdrawable(current_era),
            final(self)@ == old(self)@.withdrawn(current_era),
    {
        let released = release_matured(&mut self.unlocking, current_era);
        proof {
            lemma_unmatured(old(self)@.unlocking, current_era);
        }
        self.total = self.total - released;
        released
    }
}

} // verus!
