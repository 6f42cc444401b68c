//! Execution core of an Ethereum-style chain: an account store with a
//! canonical root hash, the fee model, precompiles, the transaction
//! executor, receipts with bloom filters, the pending-transaction queue,
//! block building, and the request builders of a node's loan methods.

use vstd::prelude::*;

pub mod fee;
pub mod hash;
pub mod trie;
pub mod precompiles;
pub mod transaction;
pub mod receipt;
pub mod executor;
pub mod tx_queue;
pub mod handler;
pub mod web3;
pub mod loan;
pub mod runtime;
pub mod genesis;
pub mod state_proof;

verus! {

/// Sum of two sizes.
pub fn add(left: usize, right: usize) -> (r: usize)
    requires
        left + right <= usize::MAX,
    ensures
        r == left + right,
{
    left + right
}

} // verus!
