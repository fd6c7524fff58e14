//! The decisions of the bridge for non-fungible assets.

use nominees_election::asset::{
    match_and_split, non_fungible, same_asset, same_bytes, same_instance, same_junction,
    same_junctions, same_location, AssetId, BodyId, BodyPart, Fungibility, Instance, Junction,
    Location, NetworkId,
};
use nominees_election::homa::{redemption, RedeemStrategy, Redemption};
use nominees_election::nft::{
    burn_as, can_transfer, created_properties, owner_transfer, Properties,
};
use nominees_election::registry::{check_register, DepositStep, RegisterError, Registry};
use nominees_election::transact::{
    asset_instance_to_token_id, asset_to_collection, convert_asset_instance,
    local_asset_to_collection, local_class_index, plan_deposit, plan_foreign_deposit,
    plan_local_deposit, plan_transfer, Deposit, ForeignDeposit, MatchError, Move,
};

const PALLET: u64 = 0x5f70_766d_6c64_6f6d;
const ALICE: u64 = 1;
const BOB: u64 = 2;

fn here() -> Location {
    Location { parents: 0, interior: vec![Junction::PalletInstance(121)] }
}

fn local_asset(index: u128) -> AssetId {
    AssetId::Concrete(Location {
        parents: 0,
        interior: vec![Junction::PalletInstance(121), Junction::GeneralIndex(index)],
    })
}

fn foreign_asset(para: u32) -> AssetId {
    AssetId::Concrete(Location {
        parents: 1,
        interior: vec![Junction::Parachain(para), Junction::GeneralIndex(3)],
    })
}

#[test]
fn an_index_that_fits_converts_to_its_token() {
    assert_eq!(convert_asset_instance(Instance::Index(0)), Ok(0));
    assert_eq!(convert_asset_instance(Instance::Index(7)), Ok(7));
    assert_eq!(convert_asset_instance(Instance::Index(u64::MAX as u128)), Ok(u64::MAX));
}

#[test]
fn an_index_that_does_not_fit_converts_to_no_token() {
    assert_eq!(
        convert_asset_instance(Instance::Index(u64::MAX as u128 + 1)),
        Err(MatchError::InstanceConversionFailed)
    );
    assert_eq!(
        convert_asset_instance(Instance::Index(u128::MAX)),
        Err(MatchError::InstanceConversionFailed)
    );
}

#[test]
fn only_an_index_converts_to_a_token() {
    for instance in [
        Instance::Undefined,
        Instance::Array4([1, 2, 3, 4]),
        Instance::Array8([0; 8]),
        Instance::Array16([0; 16]),
        Instance::Array32([0; 32]),
    ] {
        assert_eq!(convert_asset_instance(instance), Err(MatchError::InstanceConversionFailed));
    }
}

#[test]
fn a_foreign_instance_has_the_recorded_token() {
    assert_eq!(asset_instance_to_token_id(true, Some(5), Instance::Index(9)), Some(5));
    assert_eq!(asset_instance_to_token_id(true, Some(5), Instance::Array4([1, 2, 3, 4])), Some(5));
    assert_eq!(asset_instance_to_token_id(true, None, Instance::Index(9)), None);
}

#[test]
fn a_local_instance_has_the_token_it_stands_for() {
    assert_eq!(asset_instance_to_token_id(false, Some(5), Instance::Index(9)), Some(9));
    assert_eq!(asset_instance_to_token_id(false, None, Instance::Index(9)), Some(9));
    assert_eq!(asset_instance_to_token_id(false, Some(5), Instance::Array4([1, 2, 3, 4])), None);
    assert_eq!(asset_instance_to_token_id(false, Some(5), Instance::Index(u128::MAX)), None);
}

#[test]
fn the_foreign_collection_comes_before_the_local_one() {
    assert_eq!(asset_to_collection(Some(4), Some(8)), Ok((4, true)));
    assert_eq!(asset_to_collection(Some(4), None), Ok((4, true)));
    assert_eq!(asset_to_collection(None, Some(8)), Ok((8, false)));
    assert_eq!(asset_to_collection(None, None), Err(MatchError::AssetIdConversionFailed));
}

#[test]
fn match_and_split_wants_the_prefix_and_one_junction_more() {
    let prefix = vec![Junction::Parachain(7), Junction::PalletInstance(3)];
    let mut interior = prefix.clone();
    assert_eq!(match_and_split(&interior, &prefix), None);
    interior.push(Junction::GeneralIndex(11));
    assert_eq!(match_and_split(&interior, &prefix), Some(Junction::GeneralIndex(11)));
    interior.push(Junction::OnlyChild);
    assert_eq!(match_and_split(&interior, &prefix), None);
    let other = vec![Junction::Parachain(8), Junction::PalletInstance(3), Junction::OnlyChild];
    assert_eq!(match_and_split(&other, &prefix), None);
    assert_eq!(match_and_split(&vec![Junction::OnlyChild], &vec![]), Some(Junction::OnlyChild));
    assert_eq!(match_and_split(&vec![], &vec![]), None);
    assert_eq!(match_and_split(&vec![], &prefix), None);
}

#[test]
fn a_local_class_is_an_index_right_below_the_pallet() {
    assert_eq!(local_class_index(&local_asset(0), &here()), Some(0));
    assert_eq!(local_class_index(&local_asset(42), &here()), Some(42));
    assert_eq!(local_class_index(&local_asset(u32::MAX as u128), &here()), Some(u32::MAX));
}

#[test]
fn what_is_not_right_below_the_pallet_is_no_local_class() {
    assert_eq!(local_class_index(&local_asset(u32::MAX as u128 + 1), &here()), None);
    assert_eq!(local_class_index(&foreign_asset(2000), &here()), None);
    assert_eq!(local_class_index(&AssetId::Abstract([7; 32]), &here()), None);
    let one_up = AssetId::Concrete(Location {
        parents: 1,
        interior: vec![Junction::PalletInstance(121), Junction::GeneralIndex(42)],
    });
    assert_eq!(local_class_index(&one_up, &here()), None);
    let no_index = AssetId::Concrete(Location {
        parents: 0,
        interior: vec![Junction::PalletInstance(121), Junction::Parachain(42)],
    });
    assert_eq!(local_class_index(&no_index, &here()), None);
    let too_deep = AssetId::Concrete(Location {
        parents: 0,
        interior: vec![
            Junction::PalletInstance(121),
            Junction::GeneralIndex(42),
            Junction::GeneralIndex(1),
        ],
    });
    assert_eq!(local_class_index(&too_deep, &here()), None);
    let the_pallet = AssetId::Concrete(here());
    assert_eq!(local_class_index(&the_pallet, &here()), None);
    let other_pallet = AssetId::Concrete(Location {
        parents: 0,
        interior: vec![Junction::PalletInstance(120), Junction::GeneralIndex(42)],
    });
    assert_eq!(local_class_index(&other_pallet, &here()), None);
}

#[test]
fn a_collection_taken_by_a_foreign_class_is_not_local() {
    assert_eq!(local_asset_to_collection(Some(3), false), Some(3));
    assert_eq!(local_asset_to_collection(Some(3), true), None);
    assert_eq!(local_asset_to_collection(None, false), None);
    assert_eq!(local_asset_to_collection(None, true), None);
}

#[test]
fn a_transfer_of_a_local_token_is_planned() {
    assert_eq!(
        plan_transfer(Some(Instance::Index(9)), Ok((3, false)), Some(ALICE), Some(BOB), None),
        Ok(Move { from: ALICE, to: BOB, class: 3, token: 9 })
    );
}

#[test]
fn a_transfer_of_a_foreign_token_is_planned() {
    assert_eq!(
        plan_transfer(
            Some(Instance::Array4([1, 2, 3, 4])),
            Ok((3, true)),
            Some(ALICE),
            Some(PALLET),
            Some(77)
        ),
        Ok(Move { from: ALICE, to: PALLET, class: 3, token: 77 })
    );
}

#[test]
fn a_transfer_fails_for_the_first_reason_in_order() {
    let bad = Err(MatchError::AssetIdConversionFailed);
    assert_eq!(plan_transfer(None, bad, None, None, None), Err(MatchError::AssetNotHandled));
    assert_eq!(
        plan_transfer(Some(Instance::Undefined), bad, None, None, None),
        Err(MatchError::AssetIdConversionFailed)
    );
    assert_eq!(
        plan_transfer(Some(Instance::Undefined), Ok((3, false)), None, Some(BOB), None),
        Err(MatchError::AccountIdConversionFailed)
    );
    assert_eq!(
        plan_transfer(Some(Instance::Undefined), Ok((3, false)), Some(ALICE), None, None),
        Err(MatchError::AccountIdConversionFailed)
    );
    assert_eq!(
        plan_transfer(Some(Instance::Undefined), Ok((3, false)), Some(ALICE), Some(BOB), Some(1)),
        Err(MatchError::InstanceConversionFailed)
    );
    assert_eq!(
        plan_transfer(Some(Instance::Index(1)), Ok((3, true)), Some(ALICE), Some(BOB), None),
        Err(MatchError::InstanceConversionFailed)
    );
}

#[test]
fn a_deposit_is_planned_or_fails_for_the_first_reason_in_order() {
    let instance = Instance::Array4([1, 2, 3, 4]);
    assert_eq!(
        plan_deposit(Some(instance), Ok((3, true)), Some(BOB)),
        Ok(Deposit { to: BOB, class: 3, foreign: true, instance })
    );
    let bad = Err(MatchError::AssetIdConversionFailed);
    assert_eq!(plan_deposit(None, bad, None), Err(MatchError::AssetNotHandled));
    assert_eq!(plan_deposit(Some(instance), bad, None), Err(MatchError::AssetIdConversionFailed));
    assert_eq!(
        plan_deposit(Some(instance), Ok((3, false)), None),
        Err(MatchError::AccountIdConversionFailed)
    );
}

#[test]
fn a_foreign_deposit_hands_out_a_known_token_and_mints_an_unknown_one() {
    assert_eq!(
        plan_foreign_deposit(PALLET, BOB, 3, Some(77)),
        ForeignDeposit::HandOut(Move { from: PALLET, to: BOB, class: 3, token: 77 })
    );
    assert_eq!(plan_foreign_deposit(PALLET, BOB, 3, None), ForeignDeposit::MintAndRecord);
}

#[test]
fn a_local_deposit_hands_out_the_token_of_the_index() {
    assert_eq!(
        plan_local_deposit(PALLET, BOB, 3, Instance::Index(9)),
        Ok(Move { from: PALLET, to: BOB, class: 3, token: 9 })
    );
    assert_eq!(
        plan_local_deposit(PALLET, BOB, 3, Instance::Array4([1, 2, 3, 4])),
        Err(MatchError::InstanceConversionFailed)
    );
    assert_eq!(
        plan_local_deposit(PALLET, BOB, 3, Instance::Index(u128::MAX)),
        Err(MatchError::InstanceConversionFailed)
    );
}

#[test]
fn only_a_non_fungible_asset_names_an_instance() {
    assert_eq!(non_fungible(Fungibility::Fungible(100)), None);
    assert_eq!(non_fungible(Fungibility::NonFungible(Instance::Index(1))), Some(Instance::Index(1)));
}

#[test]
fn registration_wants_the_origin_first_and_a_new_class_second() {
    assert_eq!(check_register(false, Some(1)), Err(RegisterError::BadOrigin));
    assert_eq!(check_register(false, None), Err(RegisterError::BadOrigin));
    assert_eq!(check_register(true, Some(1)), Err(RegisterError::AssetAlreadyRegistered));
    assert_eq!(check_register(true, None), Ok(()));
}

#[test]
fn a_new_registry_knows_nothing() {
    let registry = Registry::new();
    assert_eq!(registry.assets(&foreign_asset(2000)), None);
    assert_eq!(registry.classes(0), None);
    assert_eq!(registry.items(0, &Instance::Index(0)), None);
}

#[test]
fn a_record_is_found_both_ways_and_leaves_the_others_alone() {
    let mut registry = Registry::new();
    registry.record(foreign_asset(2000), 5);
    registry.record(AssetId::Abstract([9; 32]), 6);
    assert_eq!(registry.assets(&foreign_asset(2000)), Some(5));
    assert_eq!(registry.classes(5), Some(&foreign_asset(2000)));
    assert_eq!(registry.assets(&AssetId::Abstract([9; 32])), Some(6));
    assert_eq!(registry.classes(6), Some(&AssetId::Abstract([9; 32])));
    assert_eq!(registry.foreign_asset_to_collection(&foreign_asset(2000)), Some(5));
    assert_eq!(registry.assets(&foreign_asset(2001)), None);
    assert_eq!(registry.assets(&AssetId::Abstract([8; 32])), None);
    assert_eq!(registry.classes(7), None);
}

#[test]
fn an_item_record_is_found_again_and_the_latest_counts() {
    let mut registry = Registry::new();
    let instance = Instance::Array4([1, 2, 3, 4]);
    registry.record_item(5, instance, 70);
    assert_eq!(registry.items(5, &instance), Some(70));
    assert_eq!(registry.items(6, &instance), None);
    assert_eq!(registry.items(5, &Instance::Array4([1, 2, 3, 5])), None);
    registry.record_item(5, instance, 71);
    assert_eq!(registry.items(5, &instance), Some(71));
    assert_eq!(registry.token_for(5, true, &instance), Some(71));
    assert_eq!(registry.token_for(5, false, &instance), None);
    assert_eq!(registry.token_for(5, false, &Instance::Index(3)), Some(3));
    assert_eq!(registry.token_for(5, true, &Instance::Index(3)), None);
}

#[test]
fn the_registry_finds_the_collection_of_an_asset() {
    let mut registry = Registry::new();
    registry.record(foreign_asset(2000), 5);
    assert_eq!(registry.collection_for(&foreign_asset(2000), &here()), Ok((5, true)));
    assert_eq!(registry.collection_for(&local_asset(8), &here()), Ok((8, false)));
    // Collection 5 stands for a foreign class, so it is no local class.
    assert_eq!(registry.local_collection(&local_asset(5), &here()), None);
    assert_eq!(registry.local_collection(&local_asset(8), &here()), Some(8));
    assert_eq!(
        registry.collection_for(&local_asset(5), &here()),
        Err(MatchError::AssetIdConversionFailed)
    );
    assert_eq!(
        registry.collection_for(&foreign_asset(2001), &here()),
        Err(MatchError::AssetIdConversionFailed)
    );
    assert_eq!(
        registry.collection_for(&AssetId::Abstract([0; 32]), &here()),
        Err(MatchError::AssetIdConversionFailed)
    );
}

#[test]
fn the_registry_plans_a_transfer_from_its_records() {
    let mut registry = Registry::new();
    let instance = Instance::Array4([1, 2, 3, 4]);
    registry.record(foreign_asset(2000), 5);
    registry.record_item(5, instance, 70);
    let foreign = Fungibility::NonFungible(instance);
    assert_eq!(
        registry.transfer(&foreign_asset(2000), foreign, &here(), Some(ALICE), Some(BOB)),
        Ok(Move { from: ALICE, to: BOB, class: 5, token: 70 })
    );
    assert_eq!(
        registry.transfer(
            &foreign_asset(2000),
            Fungibility::NonFungible(Instance::Index(1)),
            &here(),
            Some(ALICE),
            Some(BOB)
        ),
        Err(MatchError::InstanceConversionFailed)
    );
    assert_eq!(
        registry.transfer(
            &local_asset(8),
            Fungibility::NonFungible(Instance::Index(1)),
            &here(),
            Some(ALICE),
            Some(PALLET)
        ),
        Ok(Move { from: ALICE, to: PALLET, class: 8, token: 1 })
    );
    assert_eq!(
        registry.transfer(&local_asset(8), Fungibility::Fungible(1), &here(), Some(ALICE), None),
        Err(MatchError::AssetNotHandled)
    );
    assert_eq!(
        registry.transfer(&foreign_asset(1), foreign, &here(), Some(ALICE), Some(BOB)),
        Err(MatchError::AssetIdConversionFailed)
    );
    assert_eq!(
        registry.transfer(&foreign_asset(2000), foreign, &here(), None, Some(BOB)),
        Err(MatchError::AccountIdConversionFailed)
    );
}

#[test]
fn a_withdrawal_goes_into_the_custody_of_the_bridge() {
    let mut registry = Registry::new();
    let instance = Instance::Array4([1, 2, 3, 4]);
    registry.record(foreign_asset(2000), 5);
    registry.record_item(5, instance, 70);
    assert_eq!(
        registry.withdraw(
            &foreign_asset(2000),
            Fungibility::NonFungible(instance),
            &here(),
            Some(ALICE)
        ),
        Ok(Move { from: ALICE, to: PALLET, class: 5, token: 70 })
    );
    assert_eq!(
        registry.withdraw(
            &local_asset(8),
            Fungibility::NonFungible(Instance::Index(2)),
            &here(),
            Some(ALICE)
        ),
        Ok(Move { from: ALICE, to: PALLET, class: 8, token: 2 })
    );
    assert_eq!(
        registry.withdraw(&local_asset(8), Fungibility::NonFungible(instance), &here(), None),
        Err(MatchError::AccountIdConversionFailed)
    );
    assert_eq!(
        registry.withdraw(&local_asset(8), Fungibility::NonFungible(instance), &here(), Some(ALICE)),
        Err(MatchError::InstanceConversionFailed)
    );
}

#[test]
fn the_registry_plans_a_deposit_from_its_records() {
    let mut registry = Registry::new();
    let known = Instance::Array4([1, 2, 3, 4]);
    let unknown = Instance::Array4([9, 9, 9, 9]);
    registry.record(foreign_asset(2000), 5);
    registry.record_item(5, known, 70);
    assert_eq!(
        registry.deposit(
            &foreign_asset(2000),
            Fungibility::NonFungible(known),
            &here(),
            Some(BOB)
        ),
        Ok(DepositStep::HandOut {
            hand_over: Move { from: PALLET, to: BOB, class: 5, token: 70 },
            foreign: true
        })
    );
    assert_eq!(
        registry.deposit(
            &foreign_asset(2000),
            Fungibility::NonFungible(unknown),
            &here(),
            Some(BOB)
        ),
        Ok(DepositStep::MintAndRecord { to: BOB, class: 5, instance: unknown })
    );
    assert_eq!(
        registry.deposit(
            &local_asset(8),
            Fungibility::NonFungible(Instance::Index(4)),
            &here(),
            Some(BOB)
        ),
        Ok(DepositStep::HandOut {
            hand_over: Move { from: PALLET, to: BOB, class: 8, token: 4 },
            foreign: false
        })
    );
    assert_eq!(
        registry.deposit(&local_asset(8), Fungibility::NonFungible(known), &here(), Some(BOB)),
        Err(MatchError::InstanceConversionFailed)
    );
    assert_eq!(
        registry.deposit(&local_asset(8), Fungibility::NonFungible(known), &here(), None),
        Err(MatchError::AccountIdConversionFailed)
    );
    assert_eq!(
        registry.deposit(&local_asset(8), Fungibility::Fungible(5), &here(), Some(BOB)),
        Err(MatchError::AssetNotHandled)
    );
}

#[test]
fn a_token_is_burned_in_the_given_name_or_the_owners() {
    assert_eq!(burn_as(None, None), None);
    assert_eq!(burn_as(None, Some(BOB)), None);
    assert_eq!(burn_as(Some(ALICE), None), Some(ALICE));
    assert_eq!(burn_as(Some(ALICE), Some(BOB)), Some(BOB));
}

#[test]
fn a_token_is_passed_on_from_its_owner() {
    assert_eq!(
        owner_transfer(Some(ALICE), BOB, 3, 9),
        Some(Move { from: ALICE, to: BOB, class: 3, token: 9 })
    );
    assert_eq!(owner_transfer(None, BOB, 3, 9), None);
}

#[test]
fn registration_is_decided_from_the_records() {
    let mut registry = Registry::new();
    assert_eq!(registry.may_register(true, &foreign_asset(2000)), Ok(()));
    assert_eq!(registry.may_register(false, &foreign_asset(2000)), Err(RegisterError::BadOrigin));
    registry.record(foreign_asset(2000), 5);
    assert_eq!(
        registry.may_register(true, &foreign_asset(2000)),
        Err(RegisterError::AssetAlreadyRegistered)
    );
    assert_eq!(registry.may_register(false, &foreign_asset(2000)), Err(RegisterError::BadOrigin));
    assert_eq!(registry.may_register(true, &foreign_asset(2001)), Ok(()));
}

#[test]
fn a_token_changes_hands_only_if_its_collection_allows_it() {
    let open = created_properties();
    assert_eq!(
        open,
        Properties {
            transferable: true,
            burnable: true,
            mintable: true,
            class_properties_mutable: false
        }
    );
    assert!(can_transfer(Some(open)));
    assert!(!can_transfer(Some(Properties { transferable: false, ..open })));
    assert!(!can_transfer(None));
}

#[test]
fn each_strategy_asks_the_protocol_for_its_own_redemption() {
    assert_eq!(redemption(10, RedeemStrategy::Immediately), Redemption::ByFreeUnbonded(10));
    assert_eq!(redemption(10, RedeemStrategy::Target(7)), Redemption::ByClaimUnbonding(10, 7));
    assert_eq!(redemption(10, RedeemStrategy::WaitForUnbonding), Redemption::ByUnbond(10));
}

#[test]
fn sameness_agrees_with_equality() {
    let junctions = vec![
        Junction::Parachain(1),
        Junction::Parachain(2),
        Junction::AccountId32 { network: None, id: [1; 32] },
        Junction::AccountId32 { network: Some(NetworkId::Kusama), id: [1; 32] },
        Junction::AccountId32 { network: Some(NetworkId::Polkadot), id: [1; 32] },
        Junction::AccountId32 { network: Some(NetworkId::ByGenesis([3; 32])), id: [2; 32] },
        Junction::AccountIndex64 { network: None, index: 5 },
        Junction::AccountIndex64 { network: Some(NetworkId::Ethereum { chain_id: 1 }), index: 5 },
        Junction::AccountKey20 { network: None, key: [4; 20] },
        Junction::AccountKey20 {
            network: Some(NetworkId::ByFork { block_number: 1, block_hash: [0; 32] }),
            key: [4; 20],
        },
        Junction::PalletInstance(3),
        Junction::GeneralIndex(3),
        Junction::GeneralKey { length: 2, data: [5; 32] },
        Junction::GeneralKey { length: 3, data: [5; 32] },
        Junction::OnlyChild,
        Junction::Plurality { id: BodyId::Unit, part: BodyPart::Voice },
        Junction::Plurality { id: BodyId::Moniker(*b"abcd"), part: BodyPart::Voice },
        Junction::Plurality { id: BodyId::Index(1), part: BodyPart::Members { count: 2 } },
        Junction::Plurality {
            id: BodyId::Treasury,
            part: BodyPart::Fraction { nom: 1, denom: 2 },
        },
        Junction::Plurality {
            id: BodyId::Treasury,
            part: BodyPart::AtLeastProportion { nom: 1, denom: 2 },
        },
        Junction::Plurality {
            id: BodyId::Treasury,
            part: BodyPart::MoreThanProportion { nom: 1, denom: 3 },
        },
        Junction::GlobalConsensus(NetworkId::Westend),
        Junction::GlobalConsensus(NetworkId::BitcoinCash),
    ];
    for a in &junctions {
        for b in &junctions {
            assert_eq!(same_junction(a, b), a == b);
        }
    }
    let instances = [
        Instance::Undefined,
        Instance::Index(1),
        Instance::Index(2),
        Instance::Array4([1, 2, 3, 4]),
        Instance::Array4([1, 2, 3, 5]),
        Instance::Array8([1; 8]),
        Instance::Array16([1; 16]),
        Instance::Array32([1; 32]),
    ];
    for a in &instances {
        for b in &instances {
            assert_eq!(same_instance(a, b), a == b);
        }
    }
    let assets = [
        local_asset(1),
        local_asset(2),
        foreign_asset(1),
        AssetId::Abstract([1; 32]),
        AssetId::Abstract([2; 32]),
        AssetId::Concrete(here()),
    ];
    for a in &assets {
        for b in &assets {
            assert_eq!(same_asset(a, b), a == b);
        }
    }
    assert!(same_bytes(&[1u8, 2, 3], &[1, 2, 3]));
    assert!(!same_bytes(&[1u8, 2, 3], &[1, 2, 4]));
    assert!(same_bytes::<0>(&[], &[]));
    assert!(same_location(&here(), &here()));
    assert!(!same_location(&here(), &Location { parents: 1, ..here() }));
    assert!(same_junctions(&vec![], &vec![]));
    assert!(!same_junctions(&vec![Junction::OnlyChild], &vec![]));
}
