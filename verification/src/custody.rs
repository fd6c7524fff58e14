//! The account in whose custody the bridge keeps tokens.

use frame_support::PalletId;
use sp_runtime::traits::AccountIdConversion;
use vstd::prelude::*;
use crate::primitives::AccountId;

verus! {

/// The account that eight bytes stand for: their value read with the first
/// byte lowest.
pub open spec fn account_of_bytes(bytes: Seq<u8>) -> int {
    bytes[0] + bytes[1] * 0x100 + bytes[2] * 0x1_0000 + bytes[3] * 0x100_0000 + bytes[4]
        * 0x1_0000_0000 + bytes[5] * 0x100_0000_0000 + bytes[6] * 0x1_0000_0000_0000 + bytes[7]
        * 0x100_0000_0000_0000
}

/// The account that the runtime derives from a pallet identifier by
/// truncation: the bytes of `modl`, then as many bytes of the identifier as
/// still fit.
pub open spec fn truncated_account(id: Seq<u8>) -> int {
    account_of_bytes(seq![109u8, 111u8, 100u8, 108u8, id[0], id[1], id[2], id[3]])
}

/// Calls `AccountIdConversion::into_account_truncating` on the pallet
/// identifier `id`. The outside function encodes the pallet type's tag
/// `modl`, then the identifier, pads with zeroes, and decodes an account from
/// the front; for an account of eight bytes that is the tag and the first
/// four bytes of the identifier, the first byte lowest. It fails on no input.
#[verifier::external_body]
fn into_account_truncating(id: [u8; 8]) -> (account: AccountId)
    ensures
        account == truncated_account(id@),
{
    PalletId(id).into_account_truncating()
}

/// The identifier of the bridge among the pallets of its runtime: the bytes
/// of `mvp_xnft`.
pub fn pallet_id() -> (id: [u8; 8])
    ensures
        id@ == seq![109u8, 118u8, 112u8, 95u8, 120u8, 110u8, 102u8, 116u8],
{
    let id: [u8; 8] = [109, 118, 112, 95, 120, 110, 102, 116];
    assert(id@ =~= seq![109u8, 118u8, 112u8, 95u8, 120u8, 110u8, 102u8, 116u8]);
    id
}

/// The account that holds tokens in custody for the bridge.
pub open spec fn custody_account() -> AccountId {
    0x5f70_766d_6c64_6f6d
}

/// The account that holds tokens in custody for the bridge: the one derived
/// from the bridge's pallet identifier.
pub fn account_id() -> (account: AccountId)
    ensures
        account == custody_account(),
{
    into_account_truncating(pallet_id())
}

} // verus!
