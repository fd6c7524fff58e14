//! What the token ledger is asked to do on behalf of a collection's tokens.

use vstd::prelude::*;
use crate::primitives::{AccountId, ClassId, TokenId};
use crate::transact::Move;

verus! {

/// What may be done with the tokens of a collection.
#[derive(Clone, Copy, Debug, PartialEq, Eq, Structural)]
pub struct Properties {
    /// Its tokens may change hands.
    pub transferable: bool,
    /// Its tokens may be burned.
    pub burnable: bool,
    /// New tokens may be minted.
    pub mintable: bool,
    /// These properties may be changed.
    pub class_properties_mutable: bool,
}

/// The properties of a collection that is created on behalf of others: its
/// tokens may be minted, burned and handed on, and that stays so.
pub fn created_properties() -> (properties: Properties)
    ensures
        properties == (Properties {
            transferable: true,
            burnable: true,
            mintable: true,
            class_properties_mutable: false,
        }),
{
    Properties { transferable: true, burnable: true, mintable: true, class_properties_mutable: false }
}

/// Whether a token of a collection may change hands: the collection exists,
/// with the properties `collection`, and they allow it.
pub fn can_transfer(collection: Option<Properties>) -> (allowed: bool)
    ensures
        allowed == match collection {
            Some(properties) => properties.transferable,
            None => false,
        },
{
    match collection {
        Some(properties) => properties.transferable,
        None => false,
    }
}

/// In whose name a token is burned: nobody's if the token has no owner,
/// else in the name of `check_owner` if one is given, else in the owner's.
pub fn burn_as(owner: Option<AccountId>, check_owner: Option<AccountId>) -> (who: Option<
    AccountId,
>)
    ensures
        who == match owner {
            None => None,
            Some(owner) => match check_owner {
                Some(given) => Some(given),
                None => Some(owner),
            },
        },
{
    match owner {
        None => None,
        Some(owner) => match check_owner {
            Some(given) => Some(given),
            None => Some(owner),
        },
    }
}

/// The hand-over that passes a token on to `to`: from its owner, if it has
/// one, and none if it has not.
pub fn owner_transfer(owner: Option<AccountId>, to: AccountId, class: ClassId, token: TokenId) -> (plan:
    Option<Move>)
    ensures
        plan == match owner {
            Some(from) => Some(Move { from, to, class, token }),
            None => None,
        },
{
    match owner {
        Some(from) => Some(Move { from, to, class, token }),
        None => None,
    }
}

} // verus!
