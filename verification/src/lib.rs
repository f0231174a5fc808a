//! A rollup-style chat node library: transactions published to a
//! data-availability layer are replayed, in height order, into a
//! deterministic ledger of users and channels.
//!
//! The modules, leaves first:
//! - [`tx`]: the transaction and identity model (keys, signatures, the
//!   two transaction kinds, canonical unsigned form).
//! - [`codec`]: the deterministic, length-framed wire encoding of
//!   transactions and batches, with round-trip proofs.
//! - [`state`]: the ledger and its state-transition function.
//! - [`mempool`]: the pending-transaction buffer that batches publishes.
//! - [`sync`]: the catch-up / live synchronization engine.

pub mod codec;
pub mod mempool;
pub mod state;
pub mod sync;
pub mod tx;

use vstd::prelude::*;

verus! {

} // verus!
