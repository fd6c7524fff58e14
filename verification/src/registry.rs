//! The registry of foreign asset classes: which collection stands for which
//! foreign class, and which token for which of its instances.

use vstd::prelude::*;
use crate::asset::{
    instance_of, non_fungible, same_asset, same_instance, AssetId, AssetKey, Fungibility, Instance,
    Location, LocationView,
};
use crate::custody::{account_id, custody_account};
use crate::primitives::{AccountId, ClassId, TokenId};
use crate::transact::{
    asset_instance_to_token_id, asset_to_collection, collection_of, deposit_plan, local_class_index,
    local_asset_to_collection, local_index, plan_deposit, plan_foreign_deposit, plan_local_deposit,
    plan_transfer, token_of, transfer_plan, ForeignDeposit, MatchError, Move,
};

verus! {

/// Why a foreign asset class is not registered.
#[derive(Clone, Copy, Debug, PartialEq, Eq, Structural)]
pub enum RegisterError {
    /// The caller may not register asset classes.
    BadOrigin,
    /// The asset class has a collection already.
    AssetAlreadyRegistered,
}

/// Decides whether a foreign asset class may be registered: the origin must
/// pass, and then the class must not have a collection yet, `registered`.
pub fn check_register(origin_passes: bool, registered: Option<ClassId>) -> (result: Result<
    (),
    RegisterError,
>)
    ensures
        result == if !origin_passes {
            Err::<(), RegisterError>(RegisterError::BadOrigin)
        } else if registered is Some {
            Err(RegisterError::AssetAlreadyRegistered)
        } else {
            Ok(())
        },
{
    if !origin_passes {
        Err(RegisterError::BadOrigin)
    } else if registered.is_some() {
        Err(RegisterError::AssetAlreadyRegistered)
    } else {
        Ok(())
    }
}

/// The value recorded for `key` in a list of records, the latest first.
pub open spec fn recorded<K, V>(records: Seq<(K, V)>, key: K) -> Option<V>
    decreases records.len(),
{
    if records.len() == 0 {
        None
    } else if records.last().0 == key {
        Some(records.last().1)
    } else {
        recorded(records.drop_last(), key)
    }
}

/// The key under which `value` is recorded in a list of records, the latest first.
pub open spec fn recorded_under<K, V>(records: Seq<(K, V)>, value: V) -> Option<K>
    decreases records.len(),
{
    if records.len() == 0 {
        None
    } else if records.last().1 == value {
        Some(records.last().0)
    } else {
        recorded_under(records.drop_last(), value)
    }
}

/// The records as a map from keys to values.
pub open spec fn by_key<K, V>(records: Seq<(K, V)>) -> Map<K, V> {
    Map::new(|key: K| recorded(records, key) is Some, |key: K| recorded(records, key)->0)
}

/// The records as a map from values to keys.
pub open spec fn by_value<K, V>(records: Seq<(K, V)>) -> Map<V, K> {
    Map::new(
        |value: V| recorded_under(records, value) is Some,
        |value: V| recorded_under(records, value)->0,
    )
}

/// One more record adds one entry to each map and changes no other.
pub proof fn lemma_one_more_record<K, V>(records: Seq<(K, V)>, key: K, value: V)
    ensures
        by_key(records.push((key, value))) == by_key(records).insert(key, value),
        by_value(records.push((key, value))) == by_value(records).insert(value, key),
{
    let more = records.push((key, value));
    assert(more.drop_last() =~= records);
    assert(by_key(more) =~= by_key(records).insert(key, value));
    assert(by_value(more) =~= by_value(records).insert(value, key));
}

/// In a registry whose two mappings are inverse to each other, a class has a
/// collection exactly if that collection stands for the class.
pub proof fn law_lookups_are_inverse(view: RegistryView, asset: AssetKey, class: ClassId)
    requires
        view.inverse(),
    ensures
        view.collection(asset) == Some(class) <==> view.asset(class) == Some(asset),
{
}

/// A registered foreign class is found again as foreign: after its record,
/// its collection is the recorded one, whatever the class looks like from
/// the pallet, and that collection is no local one any more.
pub proof fn law_registered_class_is_foreign(
    before: RegistryView,
    after: RegistryView,
    asset: AssetKey,
    class: ClassId,
    here: LocationView,
)
    requires
        after.assets == before.assets.insert(asset, class),
        after.classes == before.classes.insert(class, asset),
    ensures
        after.collection_for(asset, here) == Ok::<(ClassId, bool), MatchError>((class, true)),
        forall|local: AssetKey|
            local_index(local, here) == Some(class) ==> after.local_collection(local, here)
                is None,
{
}

/// What is deposited as new is handed out the next time: once a token is
/// recorded for an instance of a foreign class, a deposit of that instance
/// hands that token out of custody, and a withdrawal takes that token.
pub proof fn law_recorded_item_is_moved(
    before: RegistryView,
    after: RegistryView,
    asset: AssetKey,
    instance: Instance,
    token: TokenId,
    here: LocationView,
    pallet: AccountId,
    who: AccountId,
)
    requires
        before.collection_for(asset, here) is Ok,
        (before.collection_for(asset, here)->Ok_0).1,
        after.assets == before.assets,
        after.classes == before.classes,
        after.items == before.items.insert(
            ((before.collection_for(asset, here)->Ok_0).0, instance),
            token,
        ),
    ensures
        ({
            let class = (before.collection_for(asset, here)->Ok_0).0;
            let fun = Fungibility::NonFungible(instance);
            &&& after.deposit(asset, fun, here, pallet, Some(who)) == Ok::<
                DepositStep,
                MatchError,
            >(
                DepositStep::HandOut {
                    hand_over: Move { from: pallet, to: who, class, token },
                    foreign: true,
                },
            )
            &&& after.transfer(asset, fun, here, Some(who), Some(pallet)) == Ok::<
                Move,
                MatchError,
            >(Move { from: who, to: pallet, class, token })
        }),
{
}

/// The mathematical content of a [`Registry`].
pub struct RegistryView {
    /// The collection that stands for each registered foreign class.
    pub assets: Map<AssetKey, ClassId>,
    /// The foreign class that each such collection stands for.
    pub classes: Map<ClassId, AssetKey>,
    /// The token that stands for each instance of such a collection that has
    /// been deposited.
    pub items: Map<(ClassId, Instance), TokenId>,
}

impl RegistryView {
    /// Each of the two mappings between classes and collections is the
    /// inverse of the other.
    pub open spec fn inverse(self) -> bool {
        &&& forall|asset: AssetKey| #[trigger]
            self.assets.contains_key(asset) ==> self.classes.contains_key(self.assets[asset])
                && self.classes[self.assets[asset]] == asset
        &&& forall|class: ClassId| #[trigger]
            self.classes.contains_key(class) ==> self.assets.contains_key(self.classes[class])
                && self.assets[self.classes[class]] == class
    }

    /// The collection that stands for `asset`, if one does.
    pub open spec fn collection(self, asset: AssetKey) -> Option<ClassId> {
        if self.assets.contains_key(asset) {
            Some(self.assets[asset])
        } else {
            None
        }
    }

    /// The foreign class that `class` stands for, if it stands for one.
    pub open spec fn asset(self, class: ClassId) -> Option<AssetKey> {
        if self.classes.contains_key(class) {
            Some(self.classes[class])
        } else {
            None
        }
    }

    /// The token that stands for `instance` of `class`, if one does.
    pub open spec fn item(self, class: ClassId, instance: Instance) -> Option<TokenId> {
        if self.items.contains_key((class, instance)) {
            Some(self.items[(class, instance)])
        } else {
            None
        }
    }

    /// The local collection that `asset` names, seen from the pallet at
    /// `here`, unless that collection stands for a foreign class.
    pub open spec fn local_collection(self, asset: AssetKey, here: LocationView) -> Option<
        ClassId,
    > {
        match local_index(asset, here) {
            Some(class) => if self.classes.contains_key(class) {
                None
            } else {
                Some(class)
            },
            None => None,
        }
    }

    /// The collection of `asset` and whether it stands for a foreign class.
    pub open spec fn collection_for(self, asset: AssetKey, here: LocationView) -> Result<
        (ClassId, bool),
        MatchError,
    > {
        collection_of(self.collection(asset), self.local_collection(asset, here))
    }

    /// The token recorded for the instance that `fun` names in the collection
    /// of `asset`, if there are such a collection, instance and record.
    pub open spec fn mapped(self, asset: AssetKey, fun: Fungibility, here: LocationView) -> Option<
        TokenId,
    > {
        match (self.collection_for(asset, here), instance_of(fun)) {
            (Ok((class, _)), Some(instance)) => self.item(class, instance),
            _ => None,
        }
    }

    /// The hand-over that moves the asset (`asset`, `fun`) from the account
    /// that `from` converts to, to the one that `to` converts to.
    pub open spec fn transfer(
        self,
        asset: AssetKey,
        fun: Fungibility,
        here: LocationView,
        from: Option<AccountId>,
        to: Option<AccountId>,
    ) -> Result<Move, MatchError> {
        transfer_plan(
            instance_of(fun),
            self.collection_for(asset, here),
            from,
            to,
            self.mapped(asset, fun, here),
        )
    }

    /// How to deposit the asset (`asset`, `fun`) for the account that `to`
    /// converts to, out of the custody of `pallet`.
    pub open spec fn deposit(
        self,
        asset: AssetKey,
        fun: Fungibility,
        here: LocationView,
        pallet: AccountId,
        to: Option<AccountId>,
    ) -> Result<DepositStep, MatchError> {
        match deposit_plan(instance_of(fun), self.collection_for(asset, here), to) {
            Err(error) => Err(error),
            Ok(plan) => if plan.foreign {
                match self.item(plan.class, plan.instance) {
                    Some(token) => Ok(
                        DepositStep::HandOut {
                            hand_over: Move { from: pallet, to: plan.to, class: plan.class, token },
                            foreign: true,
                        },
                    ),
                    None => Ok(
                        DepositStep::MintAndRecord {
                            to: plan.to,
                            class: plan.class,
                            instance: plan.instance,
                        },
                    ),
                }
            } else {
                match token_of(plan.instance) {
                    Some(token) => Ok(
                        DepositStep::HandOut {
                            hand_over: Move { from: pallet, to: plan.to, class: plan.class, token },
                            foreign: false,
                        },
                    ),
                    None => Err(MatchError::InstanceConversionFailed),
                }
            },
        }
    }
}

/// What carries out a deposit.
#[derive(Clone, Copy, Debug, PartialEq, Eq)]
pub enum DepositStep {
    /// Hand the token out of the pallet's custody, for a foreign class or a
    /// local one.
    HandOut { hand_over: Move, foreign: bool },
    /// Mint a token of `class` for `to` and record that it stands for `instance`.
    MintAndRecord { to: AccountId, class: ClassId, instance: Instance },
}

/// The registry of foreign asset classes and their instances.
pub struct Registry {
    classes: Vec<(AssetId, ClassId)>,
    items: Vec<((ClassId, Instance), TokenId)>,
}

impl View for Registry {
    type V = RegistryView;

    closed spec fn view(&self) -> RegistryView {
        RegistryView {
            assets: by_key(self.class_records()),
            classes: by_value(self.class_records()),
            items: by_key(self.items@),
        }
    }
}

impl Registry {
    /// The records of classes and collections over the classes' content.
    closed spec fn class_records(&self) -> Seq<(AssetKey, ClassId)> {
        self.classes@.map_values(|record: (AssetId, ClassId)| (record.0@, record.1))
    }

    /// Whether the registry is well formed: its two mappings between classes
    /// and collections are inverse to each other.
    pub open spec fn wf(&self) -> bool {
        self@.inverse()
    }

    /// A registry without records.
    pub fn new() -> (registry: Registry)
        ensures
            registry.wf(),
            registry@.assets == Map::<AssetKey, ClassId>::empty(),
            registry@.classes == Map::<ClassId, AssetKey>::empty(),
            registry@.items == Map::<(ClassId, Instance), TokenId>::empty(),
    {
        let registry = Registry { classes: Vec::new(), items: Vec::new() };
        assert(registry@.assets =~= Map::<AssetKey, ClassId>::empty());
        assert(registry@.classes =~= Map::<ClassId, AssetKey>::empty());
        assert(registry@.items =~= Map::<(ClassId, Instance), TokenId>::empty());
        registry
    }

    /// The collection that stands for the foreign class `asset`, if one does.
    pub fn assets(&self, asset: &AssetId) -> (class: Option<ClassId>)
        ensures
            class == self@.collection(asset@),
    {
        let ghost records = self.class_records();
        let mut i: usize = self.classes.len();
        assert(records.take(i as int) =~= records);
        while i > 0
            invariant
                i <= self.classes.len(),
                records == self.class_records(),
                recorded(records, asset@) == recorded(records.take(i as int), asset@),
            decreases i,
        {
            i = i - 1;
            let ghost head = records.take(i + 1);
            assert(head.drop_last() =~= records.take(i as int));
            assert(head.last() == records[i as int]);
            if same_asset(&self.classes[i].0, asset) {
                return Some(self.classes[i].1);
            }
        }
        assert(records.take(0).len() == 0);
        None
    }

    /// The foreign class that the collection `class` stands for, if it stands
    /// for one.
    pub fn classes(&self, class: ClassId) -> (asset: Option<&AssetId>)
        ensures
            match asset {
                Some(asset) => self@.asset(class) == Some(asset@),
                None => self@.asset(class) is None,
            },
    {
        let ghost records = self.class_records();
        let mut i: usize = self.classes.len();
        assert(records.take(i as int) =~= records);
        while i > 0
            invariant
                i <= self.classes.len(),
                records == self.class_records(),
                recorded_under(records, class) == recorded_under(records.take(i as int), class),
            decreases i,
        {
            i = i - 1;
            let ghost head = records.take(i + 1);
            assert(head.drop_last() =~= records.take(i as int));
            assert(head.last() == records[i as int]);
            if self.classes[i].1 == class {
                return Some(&self.classes[i].0);
            }
        }
        assert(records.take(0).len() == 0);
        None
    }

    /// The token that stands for `instance` of the collection `class`, if
    /// one does.
    pub fn items(&self, class: ClassId, instance: &Instance) -> (token: Option<TokenId>)
        ensures
            token == self@.item(class, *instance),
    {
        let ghost records = self.items@;
        let mut i: usize = self.items.len();
        assert(records.take(i as int) =~= records);
        while i > 0
            invariant
                i <= self.items.len(),
                records == self.items@,
                recorded(records, (class, *instance)) == recorded(
                    records.take(i as int),
                    (class, *instance),
                ),
            decreases i,
        {
            i = i - 1;
            let ghost head = records.take(i + 1);
            assert(head.drop_last() =~= records.take(i as int));
            assert(head.last() == records[i as int]);
            let key = self.items[i].0;
            if key.0 == class && same_instance(&key.1, instance) {
                return Some(self.items[i].1);
            }
        }
        assert(records.take(0).len() == 0);
        None
    }

    /// The collection that stands for the foreign class `asset`, if one does.
    pub fn foreign_asset_to_collection(&self, asset: &AssetId) -> (class: Option<ClassId>)
        ensures
            class == self@.collection(asset@),
    {
        self.assets(asset)
    }

    /// The local collection that `asset` names, seen from the pallet at
    /// `here`, unless that collection stands for a foreign class.
    pub fn local_collection(&self, asset: &AssetId, here: &Location) -> (class: Option<ClassId>)
        ensures
            class == self@.local_collection(asset@, here@),
    {
        let index = local_class_index(asset, here);
        let taken = match index {
            Some(class) => self.classes(class).is_some(),
            None => false,
        };
        local_asset_to_collection(index, taken)
    }

    /// The collection of `asset` and whether it stands for a foreign class.
    pub fn collection_for(&self, asset: &AssetId, here: &Location) -> (result: Result<
        (ClassId, bool),
        MatchError,
    >)
        ensures
            result == self@.collection_for(asset@, here@),
    {
        let foreign = self.assets(asset);
        let local = match foreign {
            Some(_) => None,
            None => self.local_collection(asset, here),
        };
        asset_to_collection(foreign, local)
    }

    /// The token of `instance` in the collection `class`: for a foreign class
    /// the token recorded for it, for a local one the token that the
    /// instance stands for.
    pub fn token_for(&self, class: ClassId, foreign: bool, instance: &Instance) -> (token: Option<
        TokenId,
    >)
        ensures
            token == if foreign {
                self@.item(class, *instance)
            } else {
                token_of(*instance)
            },
    {
        let mapped = if foreign {
            self.items(class, instance)
        } else {
            None
        };
        asset_instance_to_token_id(foreign, mapped, *instance)
    }

    /// The hand-over that moves the asset (`asset`, `fun`) from the account
    /// that `from` converts to, to the one that `to` converts to, or why
    /// there is none.
    pub fn transfer(
        &self,
        asset: &AssetId,
        fun: Fungibility,
        here: &Location,
        from: Option<AccountId>,
        to: Option<AccountId>,
    ) -> (plan: Result<Move, MatchError>)
        ensures
            plan == self@.transfer(asset@, fun, here@, from, to),
    {
        let instance = non_fungible(fun);
        let collection = self.collection_for(asset, here);
        let mapped = match (collection, instance) {
            (Ok((class, _)), Some(instance)) => self.items(class, &instance),
            _ => None,
        };
        plan_transfer(instance, collection, from, to, mapped)
    }

    /// The hand-over that takes the asset (`asset`, `fun`) from the account
    /// that `from` converts to into the bridge's custody, or why there is
    /// none.
    pub fn withdraw(
        &self,
        asset: &AssetId,
        fun: Fungibility,
        here: &Location,
        from: Option<AccountId>,
    ) -> (plan: Result<Move, MatchError>)
        ensures
            plan == self@.transfer(asset@, fun, here@, from, Some(custody_account())),
    {
        self.transfer(asset, fun, here, from, Some(account_id()))
    }

    /// How to deposit the asset (`asset`, `fun`) for the account that `to`
    /// converts to, out of the bridge's custody, or why not at all.
    pub fn deposit(
        &self,
        asset: &AssetId,
        fun: Fungibility,
        here: &Location,
        to: Option<AccountId>,
    ) -> (step: Result<DepositStep, MatchError>)
        ensures
            step == self@.deposit(asset@, fun, here@, custody_account(), to),
    {
        let pallet = account_id();
        let plan = match plan_deposit(non_fungible(fun), self.collection_for(asset, here), to) {
            Ok(plan) => plan,
            Err(error) => {
                return Err(error);
            },
        };
        if plan.foreign {
            let mapped = self.items(plan.class, &plan.instance);
            match plan_foreign_deposit(pallet, plan.to, plan.class, mapped) {
                ForeignDeposit::HandOut(hand_over) => Ok(
                    DepositStep::HandOut { hand_over, foreign: true },
                ),
                ForeignDeposit::MintAndRecord => Ok(
                    DepositStep::MintAndRecord {
                        to: plan.to,
                        class: plan.class,
                        instance: plan.instance,
                    },
                ),
            }
        } else {
            match plan_local_deposit(pallet, plan.to, plan.class, plan.instance) {
                Ok(hand_over) => Ok(DepositStep::HandOut { hand_over, foreign: false }),
                Err(error) => Err(error),
            }
        }
    }

    /// Decides whether the foreign class `asset` may be registered: the
    /// origin must pass, and then the class must not have a collection yet.
    pub fn may_register(&self, origin_passes: bool, asset: &AssetId) -> (result: Result<
        (),
        RegisterError,
    >)
        ensures
            result == if !origin_passes {
                Err::<(), RegisterError>(RegisterError::BadOrigin)
            } else if self@.collection(asset@) is Some {
                Err(RegisterError::AssetAlreadyRegistered)
            } else {
                Ok(())
            },
    {
        if !origin_passes {
            return Err(RegisterError::BadOrigin);
        }
        check_register(origin_passes, self.assets(asset))
    }

    /// Records that the collection `class` stands for the foreign class
    /// `asset`. Neither has a record yet.
    pub fn record(&mut self, asset: AssetId, class: ClassId)
        requires
            old(self).wf(),
            old(self)@.collection(asset@) is None,
            old(self)@.asset(class) is None,
        ensures
            final(self).wf(),
            final(self)@.assets == old(self)@.assets.insert(asset@, class),
            final(self)@.classes == old(self)@.classes.insert(class, asset@),
            final(self)@.items == old(self)@.items,
    {
        proof {
            lemma_one_more_record(old(self).class_records(), asset@, class);
        }
        self.classes.push((asset, class));
        assert(self.class_records() =~= old(self).class_records().push((asset@, class)));
    }

    /// Records that `token` stands for `instance` of the collection `class`.
    /// A later record for the same instance replaces an earlier one.
    pub fn record_item(&mut self, class: ClassId, instance: Instance, token: TokenId)
        ensures
            final(self)@.items == old(self)@.items.insert((class, instance), token),
            final(self)@.assets == old(self)@.assets,
            final(self)@.classes == old(self)@.classes,
    {
        proof {
            lemma_one_more_record(old(self).items@, (class, instance), token);
        }
        self.items.push(((class, instance), token));
    }
}

} // verus!
