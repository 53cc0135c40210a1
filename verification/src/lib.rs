//! A verified ledger core: a fungible balance ledger, a registry of unique
//! assets with a bounded per-owner index, and the checked arithmetic and
//! attribute derivation they share.
//!
//! Every mutating operation is a single atomic state transition: it either
//! commits with all invariants preserved, or returns a typed error and leaves
//! the state exactly as it was.
//!
//! Beside the ledger, the crate carries a few smaller verified pieces kept
//! for their own sake: a student roster with sorted queries (`school`), a
//! Fibonacci stream that stops at the integer range (`fib`), and a
//! contiguous sub-array search (`subarray`).

pub mod attribute;
pub mod balances;
pub mod errors;
pub mod events;
pub mod fib;
pub mod guard;
pub mod ident;
pub mod registry;
pub mod school;
pub mod service;
pub mod subarray;

pub use errors::LedgerError;
pub use events::Event;
pub use service::LedgerService;
