//! The ways in which a balance query fails.

use vstd::prelude::*;
use crate::address::Address;
use crate::word::ChainId;

verus! {

/// Why a balance query returned no table.
#[derive(Debug, PartialEq, Eq)]
pub enum BalanceError {
    /// The client could not say which chain it is connected to.
    ChainLookup {
        /// What the client reported.
        cause: String,
    },
    /// No balance checker contract is registered for the chain.
    UnsupportedChain {
        /// The chain that was asked for.
        chain_id: ChainId,
    },
    /// The call of the balance checker contract failed.
    Call {
        /// The accounts that were asked for.
        accounts: Vec<Address>,
        /// The tokens that were asked for.
        tokens: Vec<Address>,
        /// The chain on which the contract was called.
        chain_id: ChainId,
        /// What the client reported.
        cause: String,
    },
    /// The contract returned another number of balances than one for each
    /// account and token.
    ShapeMismatch {
        /// The number of accounts that were asked for.
        account_count: usize,
        /// The number of tokens that were asked for.
        token_count: usize,
        /// The number of balances that came back.
        value_count: usize,
    },
}

} // verus!
