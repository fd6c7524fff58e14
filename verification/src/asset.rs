//! Assets and places as cross-chain messages name them, and how to tell
//! whether two of them are the same.
//!
//! The types hold, variant for variant, what version 3 of the cross-consensus
//! message format says of an asset and of a place, with the junctions of a
//! place as a list.

use vstd::prelude::*;

verus! {

/// A network that a place may lie in.
#[derive(Clone, Copy, Debug, PartialEq, Eq)]
pub enum NetworkId {
    ByGenesis([u8; 32]),
    ByFork { block_number: u64, block_hash: [u8; 32] },
    Polkadot,
    Kusama,
    Westend,
    Rococo,
    Wococo,
    Ethereum { chain_id: u64 },
    BitcoinCore,
    BitcoinCash,
    PolkadotBulletin,
}

/// A body of people that a place may stand for.
#[derive(Clone, Copy, Debug, PartialEq, Eq)]
pub enum BodyId {
    Unit,
    Moniker([u8; 4]),
    Index(u32),
    Executive,
    Technical,
    Legislative,
    Judicial,
    Defense,
    Administration,
    Treasury,
}

/// The part of a body that a place may stand for.
#[derive(Clone, Copy, Debug, PartialEq, Eq)]
pub enum BodyPart {
    Voice,
    Members { count: u32 },
    Fraction { nom: u32, denom: u32 },
    AtLeastProportion { nom: u32, denom: u32 },
    MoreThanProportion { nom: u32, denom: u32 },
}

/// One step on the way to a place.
#[derive(Clone, Copy, Debug, PartialEq, Eq)]
pub enum Junction {
    Parachain(u32),
    AccountId32 { network: Option<NetworkId>, id: [u8; 32] },
    AccountIndex64 { network: Option<NetworkId>, index: u64 },
    AccountKey20 { network: Option<NetworkId>, key: [u8; 20] },
    PalletInstance(u8),
    GeneralIndex(u128),
    GeneralKey { length: u8, data: [u8; 32] },
    OnlyChild,
    Plurality { id: BodyId, part: BodyPart },
    GlobalConsensus(NetworkId),
}

/// A place: so many steps up, then the junctions down.
#[derive(Clone, Debug, PartialEq, Eq)]
pub struct Location {
    pub parents: u8,
    pub interior: Vec<Junction>,
}

/// The mathematical content of a [`Location`].
pub struct LocationView {
    pub parents: u8,
    pub interior: Seq<Junction>,
}

impl View for Location {
    type V = LocationView;

    open spec fn view(&self) -> LocationView {
        LocationView { parents: self.parents, interior: self.interior@ }
    }
}

/// The identity of an asset class.
#[derive(Clone, Debug, PartialEq, Eq)]
pub enum AssetId {
    /// The class that lives at a place.
    Concrete(Location),
    /// A class named by an agreed byte string.
    Abstract([u8; 32]),
}

/// The mathematical content of an [`AssetId`].
pub enum AssetKey {
    Concrete(LocationView),
    Abstract([u8; 32]),
}

impl View for AssetId {
    type V = AssetKey;

    open spec fn view(&self) -> AssetKey {
        match *self {
            AssetId::Concrete(location) => AssetKey::Concrete(location@),
            AssetId::Abstract(name) => AssetKey::Abstract(name),
        }
    }
}

/// One instance of a non-fungible asset class.
#[derive(Clone, Copy, Debug, PartialEq, Eq)]
pub enum Instance {
    Undefined,
    Index(u128),
    Array4([u8; 4]),
    Array8([u8; 8]),
    Array16([u8; 16]),
    Array32([u8; 32]),
}

/// How much of an asset class a message moves.
#[derive(Clone, Copy, Debug, PartialEq, Eq)]
pub enum Fungibility {
    /// An amount of a fungible class.
    Fungible(u128),
    /// One instance of a non-fungible class.
    NonFungible(Instance),
}

/// The instance that `fun` names, if it names one.
pub open spec fn instance_of(fun: Fungibility) -> Option<Instance> {
    match fun {
        Fungibility::Fungible(_) => None,
        Fungibility::NonFungible(instance) => Some(instance),
    }
}

/// Computes [`instance_of`].
pub fn non_fungible(fun: Fungibility) -> (instance: Option<Instance>)
    ensures
        instance == instance_of(fun),
{
    match fun {
        Fungibility::Fungible(_) => None,
        Fungibility::NonFungible(instance) => Some(instance),
    }
}

/// Whether two byte strings of the same length are equal.
pub fn same_bytes<const N: usize>(a: &[u8; N], b: &[u8; N]) -> (same: bool)
    ensures
        same == (*a == *b),
{
    let mut i: usize = 0;
    while i < N
        invariant
            i <= N,
            forall|j: int| 0 <= j < i ==> a@[j] == b@[j],
        decreases N - i,
    {
        if a[i] != b[i] {
            return false;
        }
        i = i + 1;
    }
    assert(a@ =~= b@);
    assert(*a =~= *b);
    true
}

/// Whether two networks are the same.
pub fn same_network(a: &NetworkId, b: &NetworkId) -> (same: bool)
    ensures
        same == (*a == *b),
{
    match (a, b) {
        (NetworkId::ByGenesis(x), NetworkId::ByGenesis(y)) => same_bytes(x, y),
        (
            NetworkId::ByFork { block_number: n, block_hash: x },
            NetworkId::ByFork { block_number: m, block_hash: y },
        ) => *n == *m && same_bytes(x, y),
        (NetworkId::Polkadot, NetworkId::Polkadot) => true,
        (NetworkId::Kusama, NetworkId::Kusama) => true,
        (NetworkId::Westend, NetworkId::Westend) => true,
        (NetworkId::Rococo, NetworkId::Rococo) => true,
        (NetworkId::Wococo, NetworkId::Wococo) => true,
        (NetworkId::Ethereum { chain_id: x }, NetworkId::Ethereum { chain_id: y }) => *x == *y,
        (NetworkId::BitcoinCore, NetworkId::BitcoinCore) => true,
        (NetworkId::BitcoinCash, NetworkId::BitcoinCash) => true,
        (NetworkId::PolkadotBulletin, NetworkId::PolkadotBulletin) => true,
        _ => false,
    }
}

/// Whether two optional networks are the same.
pub fn same_optional_network(a: &Option<NetworkId>, b: &Option<NetworkId>) -> (same: bool)
    ensures
        same == (*a == *b),
{
    match (a, b) {
        (Some(x), Some(y)) => same_network(x, y),
        (None, None) => true,
        _ => false,
    }
}

/// Whether two bodies are the same.
pub fn same_body(a: &BodyId, b: &BodyId) -> (same: bool)
    ensures
        same == (*a == *b),
{
    match (a, b) {
        (BodyId::Unit, BodyId::Unit) => true,
        (BodyId::Moniker(x), BodyId::Moniker(y)) => same_bytes(x, y),
        (BodyId::Index(x), BodyId::Index(y)) => *x == *y,
        (BodyId::Executive, BodyId::Executive) => true,
        (BodyId::Technical, BodyId::Technical) => true,
        (BodyId::Legislative, BodyId::Legislative) => true,
        (BodyId::Judicial, BodyId::Judicial) => true,
        (BodyId::Defense, BodyId::Defense) => true,
        (BodyId::Administration, BodyId::Administration) => true,
        (BodyId::Treasury, BodyId::Treasury) => true,
        _ => false,
    }
}

/// Whether two parts of a body are the same.
pub fn same_body_part(a: &BodyPart, b: &BodyPart) -> (same: bool)
    ensures
        same == (*a == *b),
{
    match (a, b) {
        (BodyPart::Voice, BodyPart::Voice) => true,
        (BodyPart::Members { count: x }, BodyPart::Members { count: y }) => *x == *y,
        (BodyPart::Fraction { nom: n, denom: d }, BodyPart::Fraction { nom: m, denom: e }) => *n
            == *m && *d == *e,
        (
            BodyPart::AtLeastProportion { nom: n, denom: d },
            BodyPart::AtLeastProportion { nom: m, denom: e },
        ) => *n == *m && *d == *e,
        (
            BodyPart::MoreThanProportion { nom: n, denom: d },
            BodyPart::MoreThanProportion { nom: m, denom: e },
        ) => *n == *m && *d == *e,
        _ => false,
    }
}

/// Whether two junctions are the same.
pub fn same_junction(a: &Junction, b: &Junction) -> (same: bool)
    ensures
        same == (*a == *b),
{
    match (a, b) {
        (Junction::Parachain(x), Junction::Parachain(y)) => *x == *y,
        (
            Junction::AccountId32 { network: n, id: x },
            Junction::AccountId32 { network: m, id: y },
        ) => same_optional_network(n, m) && same_bytes(x, y),
        (
            Junction::AccountIndex64 { network: n, index: x },
            Junction::AccountIndex64 { network: m, index: y },
        ) => same_optional_network(n, m) && *x == *y,
        (
            Junction::AccountKey20 { network: n, key: x },
            Junction::AccountKey20 { network: m, key: y },
        ) => same_optional_network(n, m) && same_bytes(x, y),
        (Junction::PalletInstance(x), Junction::PalletInstance(y)) => *x == *y,
        (Junction::GeneralIndex(x), Junction::GeneralIndex(y)) => *x == *y,
        (
            Junction::GeneralKey { length: n, data: x },
            Junction::GeneralKey { length: m, data: y },
        ) => *n == *m && same_bytes(x, y),
        (Junction::OnlyChild, Junction::OnlyChild) => true,
        (Junction::Plurality { id: i, part: p }, Junction::Plurality { id: j, part: q }) => {
            same_body(i, j) && same_body_part(p, q)
        },
        (Junction::GlobalConsensus(x), Junction::GlobalConsensus(y)) => same_network(x, y),
        _ => false,
    }
}

/// Whether two lists of junctions are the same.
pub fn same_junctions(a: &Vec<Junction>, b: &Vec<Junction>) -> (same: bool)
    ensures
        same == (a@ == b@),
{
    if a.len() != b.len() {
        return false;
    }
    let mut i: usize = 0;
    while i < a.len()
        invariant
            i <= a.len(),
            a.len() == b.len(),
            forall|j: int| 0 <= j < i ==> a@[j] == b@[j],
        decreases a.len() - i,
    {
        if !same_junction(&a[i], &b[i]) {
            return false;
        }
        i = i + 1;
    }
    assert(a@ =~= b@);
    true
}

/// Whether two places are the same.
pub fn same_location(a: &Location, b: &Location) -> (same: bool)
    ensures
        same == (a@ == b@),
{
    a.parents == b.parents && same_junctions(&a.interior, &b.interior)
}

/// Whether two asset classes are the same.
pub fn same_asset(a: &AssetId, b: &AssetId) -> (same: bool)
    ensures
        same == (a@ == b@),
{
    match (a, b) {
        (AssetId::Concrete(x), AssetId::Concrete(y)) => same_location(x, y),
        (AssetId::Abstract(x), AssetId::Abstract(y)) => same_bytes(x, y),
        _ => false,
    }
}

/// Whether two instances are the same.
pub fn same_instance(a: &Instance, b: &Instance) -> (same: bool)
    ensures
        same == (*a == *b),
{
    match (a, b) {
        (Instance::Undefined, Instance::Undefined) => true,
        (Instance::Index(x), Instance::Index(y)) => *x == *y,
        (Instance::Array4(x), Instance::Array4(y)) => same_bytes(x, y),
        (Instance::Array8(x), Instance::Array8(y)) => same_bytes(x, y),
        (Instance::Array16(x), Instance::Array16(y)) => same_bytes(x, y),
        (Instance::Array32(x), Instance::Array32(y)) => same_bytes(x, y),
        _ => false,
    }
}

/// The junction that follows `prefix` in `interior`, if `interior` is
/// `prefix` and exactly one junction more.
pub open spec fn split_after(interior: Seq<Junction>, prefix: Seq<Junction>) -> Option<Junction> {
    if interior.len() == prefix.len() + 1 && interior.take(prefix.len() as int) == prefix {
        Some(interior.last())
    } else {
        None
    }
}

/// Computes [`split_after`].
pub fn match_and_split(interior: &Vec<Junction>, prefix: &Vec<Junction>) -> (tail: Option<
    Junction,
>)
    ensures
        tail == split_after(interior@, prefix@),
{
    if interior.len() == 0 || interior.len() - 1 != prefix.len() {
        return None;
    }
    let mut i: usize = 0;
    while i < prefix.len()
        invariant
            i <= prefix.len(),
            interior.len() == prefix.len() + 1,
            forall|j: int| 0 <= j < i ==> interior@[j] == prefix@[j],
        decreases prefix.len() - i,
    {
        if !same_junction(&interior[i], &prefix[i]) {
            assert(interior@.take(prefix.len() as int)[i as int] != prefix@[i as int]);
            return None;
        }
        i = i + 1;
    }
    assert(interior@.take(prefix.len() as int) =~= prefix@);
    Some(interior[prefix.len()])
}

} // verus!
