//! The typed errors that ledger operations return. No operation panics and
//! none partially commits: an error always comes with unchanged state.

use vstd::prelude::*;

verus! {

/// Every way a ledger operation can fail.
#[derive(Clone, Copy, Debug, PartialEq, Eq, Structural)]
pub enum LedgerError {
    /// A checked addition would exceed the integer range.
    Overflow,
    /// A checked subtraction would go below zero.
    Underflow,
    /// A balance is too small for the requested transfer or burn.
    InsufficientBalance,
    /// A derived asset id already keys a record.
    DuplicateAsset,
    /// An owner's asset list is already at capacity.
    CapacityExceeded,
    /// No asset record exists for the given id.
    NotFound,
    /// The sender does not own the asset.
    NotOwner,
    /// Sender and receiver of an asset transfer are the same account.
    SelfTransfer,
}

} // verus!
