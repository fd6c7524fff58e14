//! What to do with a non-fungible asset that a cross-chain message deposits,
//! withdraws or moves.
//!
//! Every function here decides from plain values: what the storage holds and
//! what the places convert to is looked up by the caller and handed in.

use vstd::prelude::*;
use crate::asset::{
    match_and_split, split_after, AssetId, AssetKey, Instance, Junction, Location, LocationView,
};
use crate::primitives::{AccountId, ClassId, TokenId};

verus! {

/// Why an asset of a message cannot be handled here.
#[derive(Clone, Copy, Debug, PartialEq, Eq, Structural)]
pub enum MatchError {
    /// The asset is not of a kind that is handled here.
    AssetNotHandled,
    /// A place does not convert to an account.
    AccountIdConversionFailed,
    /// An amount does not convert to a balance.
    AmountToBalanceConversionFailed,
    /// The asset class does not convert to a collection.
    AssetIdConversionFailed,
    /// The instance does not convert to a token.
    InstanceConversionFailed,
}

/// A token to hand from one account to another.
#[derive(Clone, Copy, Debug, PartialEq, Eq, Structural)]
pub struct Move {
    pub from: AccountId,
    pub to: AccountId,
    pub class: ClassId,
    pub token: TokenId,
}

/// A deposit that is ready to be carried out: who receives which instance of
/// which collection, and whether the collection stands for a foreign class.
#[derive(Clone, Copy, Debug, PartialEq, Eq)]
pub struct Deposit {
    pub to: AccountId,
    pub class: ClassId,
    pub foreign: bool,
    pub instance: Instance,
}

/// How to deposit an instance of a foreign class.
#[derive(Clone, Copy, Debug, PartialEq, Eq, Structural)]
pub enum ForeignDeposit {
    /// The instance was here before: hand its token out of the pallet's custody.
    HandOut(Move),
    /// The instance is new here: mint a token for it and record which.
    MintAndRecord,
}

/// The token that a local instance stands for: an index that fits a token
/// identity, and nothing else.
pub open spec fn token_of(instance: Instance) -> Option<TokenId> {
    match instance {
        Instance::Index(index) => if index <= TokenId::MAX {
            Some(index as TokenId)
        } else {
            None
        },
        _ => None,
    }
}

/// Converts a local instance to its token.
pub fn convert_asset_instance(instance: Instance) -> (result: Result<TokenId, MatchError>)
    ensures
        result == match token_of(instance) {
            Some(token) => Ok::<TokenId, MatchError>(token),
            None => Err(MatchError::InstanceConversionFailed),
        },
{
    match instance {
        Instance::Index(index) => {
            if index <= TokenId::MAX as u128 {
                Ok(index as TokenId)
            } else {
                Err(MatchError::InstanceConversionFailed)
            }
        },
        _ => Err(MatchError::InstanceConversionFailed),
    }
}

/// The token of an instance: for a foreign class the token recorded for it,
/// `mapped`; for a local class the token that the instance stands for.
pub fn asset_instance_to_token_id(foreign: bool, mapped: Option<TokenId>, instance: Instance) -> (token:
    Option<TokenId>)
    ensures
        token == if foreign {
            mapped
        } else {
            token_of(instance)
        },
{
    if foreign {
        mapped
    } else {
        match convert_asset_instance(instance) {
            Ok(token) => Some(token),
            Err(_) => None,
        }
    }
}

/// The collection of an asset class and whether it stands for a foreign
/// class: the collection registered for it as foreign comes first, the local
/// collection it names second.
pub open spec fn collection_of(foreign: Option<ClassId>, local: Option<ClassId>) -> Result<
    (ClassId, bool),
    MatchError,
> {
    match foreign {
        Some(class) => Ok((class, true)),
        None => match local {
            Some(class) => Ok((class, false)),
            None => Err(MatchError::AssetIdConversionFailed),
        },
    }
}

/// Computes [`collection_of`].
pub fn asset_to_collection(foreign: Option<ClassId>, local: Option<ClassId>) -> (result: Result<
    (ClassId, bool),
    MatchError,
>)
    ensures
        result == collection_of(foreign, local),
{
    match foreign {
        Some(class) => Ok((class, true)),
        None => match local {
            Some(class) => Ok((class, false)),
            None => Err(MatchError::AssetIdConversionFailed),
        },
    }
}

/// The local collection that `asset` names, seen from the pallet at `here`:
/// the class lives at a place with as many steps up as `here`, exactly one
/// junction below `here`, and that junction is an index that fits a
/// collection identity.
pub open spec fn local_index(asset: AssetKey, here: LocationView) -> Option<ClassId> {
    match asset {
        AssetKey::Concrete(place) => if place.parents == here.parents {
            match split_after(place.interior, here.interior) {
                Some(Junction::GeneralIndex(index)) => if index <= ClassId::MAX {
                    Some(index as ClassId)
                } else {
                    None
                },
                _ => None,
            }
        } else {
            None
        },
        AssetKey::Abstract(_) => None,
    }
}

/// Computes [`local_index`].
pub fn local_class_index(asset: &AssetId, here: &Location) -> (class: Option<ClassId>)
    ensures
        class == local_index(asset@, here@),
{
    match asset {
        AssetId::Concrete(place) => {
            if place.parents != here.parents {
                return None;
            }
            match match_and_split(&place.interior, &here.interior) {
                Some(Junction::GeneralIndex(index)) => {
                    if index <= ClassId::MAX as u128 {
                        Some(index as ClassId)
                    } else {
                        None
                    }
                },
                _ => None,
            }
        },
        AssetId::Abstract(_) => None,
    }
}

/// The local collection of an asset class: the collection that the class
/// names, `index`, unless that collection stands for a foreign class.
pub fn local_asset_to_collection(index: Option<ClassId>, taken_by_foreign: bool) -> (class: Option<
    ClassId,
>)
    ensures
        class == if taken_by_foreign {
            None
        } else {
            index
        },
{
    if taken_by_foreign {
        None
    } else {
        index
    }
}

/// The hand-over that a withdrawal or an internal transfer makes, or why
/// there is none. The first failure in this order decides: the asset is
/// fungible, its class has no collection, the sender converts to no account,
/// the receiver converts to none, the instance has no token.
pub open spec fn transfer_plan(
    instance: Option<Instance>,
    collection: Result<(ClassId, bool), MatchError>,
    from: Option<AccountId>,
    to: Option<AccountId>,
    mapped: Option<TokenId>,
) -> Result<Move, MatchError> {
    if instance is None {
        Err(MatchError::AssetNotHandled)
    } else if collection is Err {
        Err(collection->Err_0)
    } else if from is None || to is None {
        Err(MatchError::AccountIdConversionFailed)
    } else {
        let (class, foreign) = collection->Ok_0;
        let token = if foreign {
            mapped
        } else {
            token_of(instance->0)
        };
        match token {
            Some(token) => Ok(Move { from: from->0, to: to->0, class, token }),
            None => Err(MatchError::InstanceConversionFailed),
        }
    }
}

/// Computes [`transfer_plan`].
pub fn plan_transfer(
    instance: Option<Instance>,
    collection: Result<(ClassId, bool), MatchError>,
    from: Option<AccountId>,
    to: Option<AccountId>,
    mapped: Option<TokenId>,
) -> (plan: Result<Move, MatchError>)
    ensures
        plan == transfer_plan(instance, collection, from, to, mapped),
{
    let instance = match instance {
        Some(instance) => instance,
        None => {
            return Err(MatchError::AssetNotHandled);
        },
    };
    let (class, foreign) = match collection {
        Ok(found) => found,
        Err(error) => {
            return Err(error);
        },
    };
    let from = match from {
        Some(from) => from,
        None => {
            return Err(MatchError::AccountIdConversionFailed);
        },
    };
    let to = match to {
        Some(to) => to,
        None => {
            return Err(MatchError::AccountIdConversionFailed);
        },
    };
    match asset_instance_to_token_id(foreign, mapped, instance) {
        Some(token) => Ok(Move { from, to, class, token }),
        None => Err(MatchError::InstanceConversionFailed),
    }
}

/// The deposit that a message asks for, or why there is none. The first
/// failure in this order decides: the asset is fungible, its class has no
/// collection, the receiver converts to no account.
pub open spec fn deposit_plan(
    instance: Option<Instance>,
    collection: Result<(ClassId, bool), MatchError>,
    to: Option<AccountId>,
) -> Result<Deposit, MatchError> {
    if instance is None {
        Err(MatchError::AssetNotHandled)
    } else if collection is Err {
        Err(collection->Err_0)
    } else if to is None {
        Err(MatchError::AccountIdConversionFailed)
    } else {
        Ok(
            Deposit {
                to: to->0,
                class: (collection->Ok_0).0,
                foreign: (collection->Ok_0).1,
                instance: instance->0,
            },
        )
    }
}

/// Computes [`deposit_plan`].
pub fn plan_deposit(
    instance: Option<Instance>,
    collection: Result<(ClassId, bool), MatchError>,
    to: Option<AccountId>,
) -> (plan: Result<Deposit, MatchError>)
    ensures
        plan == deposit_plan(instance, collection, to),
{
    let instance = match instance {
        Some(instance) => instance,
        None => {
            return Err(MatchError::AssetNotHandled);
        },
    };
    let (class, foreign) = match collection {
        Ok(found) => found,
        Err(error) => {
            return Err(error);
        },
    };
    match to {
        Some(to) => Ok(Deposit { to, class, foreign, instance }),
        None => Err(MatchError::AccountIdConversionFailed),
    }
}

/// How to deposit an instance of the foreign class behind `class` for `to`:
/// if a token is recorded for the instance, `mapped`, the pallet hands it
/// out; if none is, one is minted and recorded.
pub fn plan_foreign_deposit(
    pallet: AccountId,
    to: AccountId,
    class: ClassId,
    mapped: Option<TokenId>,
) -> (plan: ForeignDeposit)
    ensures
        plan == match mapped {
            Some(token) => ForeignDeposit::HandOut(Move { from: pallet, to, class, token }),
            None => ForeignDeposit::MintAndRecord,
        },
{
    match mapped {
        Some(token) => ForeignDeposit::HandOut(Move { from: pallet, to, class, token }),
        None => ForeignDeposit::MintAndRecord,
    }
}

/// How to deposit an instance of the local collection `class` for `to`: the
/// pallet hands out the token that the instance stands for, if it stands for
/// one.
pub fn plan_local_deposit(pallet: AccountId, to: AccountId, class: ClassId, instance: Instance) -> (plan:
    Result<Move, MatchError>)
    ensures
        plan == match token_of(instance) {
            Some(token) => Ok::<Move, MatchError>(Move { from: pallet, to, class, token }),
            None => Err(MatchError::InstanceConversionFailed),
        },
{
    match convert_asset_instance(instance) {
        Ok(token) => Ok(Move { from: pallet, to, class, token }),
        Err(error) => Err(error),
    }
}

} // verus!
