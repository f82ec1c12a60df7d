//! The steps of one balance query. The library decides; its caller talks to
//! the client: it asks for the chain where a `ChainIdRequest` says so, makes the
//! one read call that a `BalancesCall` describes, and hands back what came of
//! each.

use vstd::prelude::*;
use crate::address::Address;
use crate::error::BalanceError;
use crate::registry::ChainRegistry;
use crate::table::{reformat, reshaped, BalanceTable};
use crate::word::{Balance, ChainId};

verus! {

/// A query that waits for the client to say which chain it is connected to.
#[derive(Debug)]
pub struct ChainIdRequest {
    /// The accounts that are asked for.
    pub accounts: Vec<Address>,
    /// The tokens that are asked for.
    pub tokens: Vec<Address>,
}

/// The one read call of a query: `balances(accounts, tokens)` on the balance
/// checker contract at `contract`.
#[derive(Debug)]
pub struct BalancesCall {
    /// The address of the balance checker contract.
    pub contract: Address,
    /// The accounts that are asked for.
    pub accounts: Vec<Address>,
    /// The tokens that are asked for.
    pub tokens: Vec<Address>,
    /// The chain on which the contract is called.
    pub chain_id: ChainId,
}

/// What the query for `accounts` and `tokens` on `chain_id` does first: the
/// call to make, or the failure where the registry has no contract for the
/// chain.
pub open spec fn planned(
    registry: ChainRegistry,
    accounts: Vec<Address>,
    tokens: Vec<Address>,
    chain_id: ChainId,
) -> Result<BalancesCall, BalanceError> {
    match registry.resolved(chain_id) {
        Some(contract) => Ok(BalancesCall { contract, accounts, tokens, chain_id }),
        None => Err(BalanceError::UnsupportedChain { chain_id }),
    }
}

/// Starts a query on the chain that the client is connected to: the chain has
/// to be asked for first.
pub fn get_erc20_balances(accounts: Vec<Address>, tokens: Vec<Address>) -> (request: ChainIdRequest)
    ensures
        request == (ChainIdRequest { accounts, tokens }),
{
    ChainIdRequest { accounts, tokens }
}

/// Starts a query on the given chain. The call goes to the contract that the
/// registry names for the chain; where it names none, the query fails and no
/// call is made.
pub fn get_erc20_balances_with_chain_id(
    registry: &ChainRegistry,
    accounts: Vec<Address>,
    tokens: Vec<Address>,
    chain_id: ChainId,
) -> (step: Result<BalancesCall, BalanceError>)
    ensures
        step == planned(*registry, accounts, tokens, chain_id),
        step is Ok <==> registry@.contains_key(chain_id),
{
    match registry.resolve(chain_id) {
        Some(contract) => Ok(BalancesCall { contract, accounts, tokens, chain_id }),
        None => Err(BalanceError::UnsupportedChain { chain_id }),
    }
}

impl ChainIdRequest {
    /// Goes on with what the client answered. With a chain, the query goes on
    /// as one on that chain; with a failure, it fails with the client's words.
    pub fn chain_id_received(
        self,
        registry: &ChainRegistry,
        answer: Result<ChainId, String>,
    ) -> (step: Result<BalancesCall, BalanceError>)
        ensures
            step == match answer {
                Ok(chain_id) => planned(*registry, self.accounts, self.tokens, chain_id),
                Err(cause) => Err(BalanceError::ChainLookup { cause }),
            },
    {
        match answer {
            Ok(chain_id) => get_erc20_balances_with_chain_id(
                registry,
                self.accounts,
                self.tokens,
                chain_id,
            ),
            Err(cause) => Err(BalanceError::ChainLookup { cause }),
        }
    }
}

impl BalancesCall {
    /// Ends the query with what the call returned. A failed call fails the
    /// query, with the accounts, the tokens, the chain and the client's words.
    /// An answer of one balance for each account and token becomes the table;
    /// an answer of any other length fails the query.
    pub fn balances_received(self, answer: Result<Vec<Balance>, String>) -> (outcome: Result<
        BalanceTable,
        BalanceError,
    >)
        ensures
            match answer {
                Err(cause) => outcome == Err::<BalanceTable, BalanceError>(
                    BalanceError::Call {
                        accounts: self.accounts,
                        tokens: self.tokens,
                        chain_id: self.chain_id,
                        cause,
                    },
                ),
                Ok(balances) => match outcome {
                    Ok(table) => {
                        &&& balances@.len() == self.accounts@.len() * self.tokens@.len()
                        &&& table.wf()
                        &&& table@ == reshaped(self.accounts@, self.tokens@, balances@)
                    },
                    Err(error) => {
                        &&& balances@.len() != self.accounts@.len() * self.tokens@.len()
                        &&& error == (BalanceError::ShapeMismatch {
                            account_count: self.accounts@.len() as usize,
                            token_count: self.tokens@.len() as usize,
                            value_count: balances@.len() as usize,
                        })
                    },
                },
            },
    {
        match answer {
            Ok(balances) => reformat(self.accounts, self.tokens, balances),
            Err(cause) => Err(
                BalanceError::Call {
                    accounts: self.accounts,
                    tokens: self.tokens,
                    chain_id: self.chain_id,
                    cause,
                },
            ),
        }
    }
}

/// A chain without an entry in the registry fails the query before any call:
/// the first step of the query is the failure and holds no call to make.
pub proof fn lemma_unsupported_chain(
    registry: ChainRegistry,
    accounts: Vec<Address>,
    tokens: Vec<Address>,
    chain_id: ChainId,
)
    requires
        !registry@.contains_key(chain_id),
    ensures
        planned(registry, accounts, tokens, chain_id) == Err::<BalancesCall, BalanceError>(
            BalanceError::UnsupportedChain { chain_id },
        ),
{
}

} // verus!
