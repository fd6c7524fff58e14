//! How a holder of the liquid token asks for the staked token back.

use vstd::prelude::*;
use crate::primitives::{Balance, EraIndex};

verus! {

/// The ways to redeem the liquid token.
#[derive(Clone, Copy, Debug, PartialEq, Eq, Structural)]
pub enum RedeemStrategy {
    /// At once, from the pool of free funds, for a fee.
    Immediately,
    /// By claiming funds that finish unbonding in the given era.
    Target(EraIndex),
    /// By asking for an unbond and waiting the whole unbonding period.
    WaitForUnbonding,
}

/// What the staking protocol is asked to do for a redemption.
#[derive(Clone, Copy, Debug, PartialEq, Eq, Structural)]
pub enum Redemption {
    /// Redeem the amount from the free funds.
    ByFreeUnbonded(Balance),
    /// Redeem the amount by claiming what unbonds in the era.
    ByClaimUnbonding(Balance, EraIndex),
    /// Redeem the amount by a new unbond.
    ByUnbond(Balance),
}

/// What the staking protocol is asked to do to redeem `amount` by `strategy`.
pub fn redemption(amount: Balance, strategy: RedeemStrategy) -> (request: Redemption)
    ensures
        request == match strategy {
            RedeemStrategy::Immediately => Redemption::ByFreeUnbonded(amount),
            RedeemStrategy::Target(era) => Redemption::ByClaimUnbonding(amount, era),
            RedeemStrategy::WaitForUnbonding => Redemption::ByUnbond(amount),
        },
{
    match strategy {
        RedeemStrategy::Immediately => Redemption::ByFreeUnbonded(amount),
        RedeemStrategy::Target(era) => Redemption::ByClaimUnbonding(amount, era),
        RedeemStrategy::WaitForUnbonding => Redemption::ByUnbond(amount),
    }
}

} // verus!
