//! 256-bit unsigned words: chain identifiers and raw token balances.

use vstd::prelude::*;

verus! {

/// A 256-bit unsigned integer, held as two 128-bit halves.
#[derive(Clone, Copy, Debug, PartialEq, Eq, Structural, Hash)]
pub struct U256 {
    /// The upper 128 bits.
    pub hi: u128,
    /// The lower 128 bits.
    pub lo: u128,
}

/// The identifier of a network.
pub type ChainId = U256;

/// The raw balance of one token for one account.
pub type Balance = U256;

impl U256 {
    /// The number that the word stands for.
    pub open spec fn value(self) -> nat {
        (self.hi as nat) * 0x1_0000_0000_0000_0000_0000_0000_0000_0000nat + (self.lo as nat)
    }

    /// The word made of the two halves.
    pub fn new(hi: u128, lo: u128) -> (word: U256)
        ensures
            word.hi == hi,
            word.lo == lo,
    {
        U256 { hi, lo }
    }

    /// The word whose value is `n`.
    pub fn from_u64(n: u64) -> (word: U256)
        ensures
            word.hi == 0,
            word.lo == n,
            word.value() == n,
    {
        U256 { hi: 0, lo: n as u128 }
    }

    /// The word whose value is `n`.
    pub fn from_u128(n: u128) -> (word: U256)
        ensures
            word.hi == 0,
            word.lo == n,
            word.value() == n,
    {
        U256 { hi: 0, lo: n }
    }

    /// The upper 128 bits.
    pub fn high(&self) -> (hi: u128)
        ensures
            hi == self.hi,
    {
        self.hi
    }

    /// The lower 128 bits.
    pub fn low(&self) -> (lo: u128)
        ensures
            lo == self.lo,
    {
        self.lo
    }
}

} // verus!
