//! Batched ERC-20 balance queries: the chain registry that names the balance
//! checker contract of each network, the steps of one query, and the reshaping
//! of the contract's flat answer into a table by account and token.

pub mod address;
pub mod error;
pub mod lookup;
pub mod query;
pub mod registry;
pub mod table;
pub mod word;

pub use crate::address::Address;
pub use crate::error::BalanceError;
pub use crate::lookup::AddressMap;
pub use crate::query::{
    get_erc20_balances, get_erc20_balances_with_chain_id, BalancesCall, ChainIdRequest,
};
pub use crate::registry::{ChainRegistry, RegistryError};
pub use crate::table::{reformat, BalanceTable, TokenBalances};
pub use crate::word::{Balance, ChainId, U256};
