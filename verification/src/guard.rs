//! Checked arithmetic used by every balance and nonce mutation. Nothing in
//! the ledger saturates or wraps: an out-of-range result is a typed error.

use vstd::prelude::*;

use crate::errors::LedgerError;

verus! {

/// Addition that reports `Overflow` instead of wrapping.
pub fn checked_add(a: u64, b: u64) -> (r: Result<u64, LedgerError>)
    ensures
        a + b <= u64::MAX ==> r == Ok::<u64, LedgerError>((a + b) as u64),
        a + b > u64::MAX ==> r == Err::<u64, LedgerError>(LedgerError::Overflow),
{
    if a <= u64::MAX - b {
        Ok(a + b)
    } else {
        Err(LedgerError::Overflow)
    }
}

/// Subtraction that reports `Underflow` instead of wrapping.
pub fn checked_sub(a: u64, b: u64) -> (r: Result<u64, LedgerError>)
    ensures
        a >= b ==> r == Ok::<u64, LedgerError>((a - b) as u64),
        a < b ==> r == Err::<u64, LedgerError>(LedgerError::Underflow),
{
    if a >= b {
        Ok(a - b)
    } else {
        Err(LedgerError::Underflow)
    }
}

} // verus!
