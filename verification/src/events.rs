//! The event records that committed operations emit. An event is returned to
//! the caller together with the new state; delivery to any sink is the
//! caller's concern and never blocks the ledger.

use vstd::prelude::*;

verus! {

/// What a successfully committed operation reports.
#[derive(Clone, Debug, PartialEq, Eq)]
pub enum Event {
    /// `mint` created `amount` units for `account`.
    Minted { account: u64, amount: u64 },
    /// `transfer_balance` moved `amount` units from `from` to `to`.
    Transferred { from: u64, to: u64, amount: u64 },
    /// `burn` destroyed `amount` units held by `account`.
    Burned { account: u64, amount: u64 },
    /// `create_asset` wrote a record with id `id` owned by `owner`.
    AssetCreated { id: Vec<u8>, owner: u64 },
    /// `transfer_asset` moved the asset keyed by `id` from `from` to `to`.
    AssetTransferred { id: Vec<u8>, from: u64, to: u64 },
}

} // verus!
