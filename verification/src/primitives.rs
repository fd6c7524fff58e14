//! Identities, amounts, configuration and errors shared by the components.

use vstd::prelude::*;

verus! {

/// Identity of a staking account.
pub type AccountId = u64;

/// Identity of a candidate that accounts may nominate.
pub type CandidateId = u64;

/// An amount of the voting token.
pub type Balance = u128;

/// The externally advanced epoch counter.
pub type EraIndex = u32;

/// Identity of a class of non-fungible tokens.
pub type ClassId = u32;

/// Identity of a token within its class.
pub type TokenId = u64;

/// The fixed parameters of an election.
#[derive(Clone, Copy, Debug, PartialEq, Eq, Structural)]
pub struct Config {
    /// The smallest nonzero active stake a ledger may hold.
    pub min_bond_threshold: Balance,
    /// The number of eras after which unbonded stake matures.
    pub unbonding_duration: EraIndex,
    /// The largest number of pending unlock chunks per ledger.
    pub max_unlock_chunks: usize,
    /// The largest number of candidates one account may nominate.
    pub max_nominations: usize,
    /// The size of the elected set.
    pub nominee_count: usize,
}

/// Why an operation was rejected. A rejected operation changes nothing.
#[derive(Clone, Copy, Debug, PartialEq, Eq, Structural)]
pub enum Error {
    /// The operation needs a ledger and the account has none.
    NotBonded,
    /// The active stake would end up below the minimum bond: after a bond at
    /// all, after an unbond unless nothing stays active.
    BelowMinBondThreshold,
    /// The unlock queue is full and the new chunk cannot be merged.
    MaxUnlockChunksExceeded,
    /// The nominated list is empty, too long, or names a candidate twice.
    InvalidTargetsLength,
}

/// What the balances collaborator has to do with an account's lock so that
/// the locked amount equals the ledger's total.
#[derive(Clone, Copy, Debug, PartialEq, Eq, Structural)]
pub enum LockUpdate {
    /// The lock stays as it is.
    Keep,
    /// The locked amount becomes the given amount.
    Lock(Balance),
    /// The lock is released entirely.
    Release,
}

/// The era at which stake unbonded in `current_era` matures: `duration` eras
/// later, or the last representable era if that lies beyond it.
pub open spec fn maturity_era(current_era: EraIndex, duration: EraIndex) -> EraIndex {
    if current_era + duration <= u32::MAX {
        (current_era + duration) as EraIndex
    } else {
        u32::MAX
    }
}

/// Computes [`maturity_era`].
pub fn maturity(current_era: EraIndex, duration: EraIndex) -> (era: EraIndex)
    ensures
        era == maturity_era(current_era, duration),
{
    current_era.saturating_add(duration)
}

} // verus!
