//! 20-byte addresses of accounts and contracts.

use vstd::prelude::*;

verus! {

/// The address of an account or of a contract: 20 bytes, big endian.
#[derive(Clone, Copy, Debug, Hash)]
pub struct Address {
    /// The bytes of the address, the most significant first.
    pub bytes: [u8; 20],
}

impl View for Address {
    type V = Seq<u8>;

    open spec fn view(&self) -> Seq<u8> {
        self.bytes@
    }
}

impl PartialEq for Address {
    fn eq(&self, other: &Address) -> (same: bool) {
        let mut i: usize = 0;
        while i < 20
            invariant
                i <= 20,
                forall|k: int| 0 <= k < i ==> self.bytes[k] == other.bytes[k],
            decreases 20 - i,
        {
            if self.bytes[i] != other.bytes[i] {
                return false;
            }
            i += 1;
        }
        proof {
            assert(self.bytes =~= other.bytes);
        }
        true
    }
}

impl Eq for Address {}

impl vstd::std_specs::cmp::PartialEqSpecImpl for Address {
    open spec fn obeys_eq_spec() -> bool {
        true
    }

    open spec fn eq_spec(&self, other: &Address) -> bool {
        *self == *other
    }
}

/// What `ethers::types::Address::from_str` makes of a text: the 20 bytes of the
/// address that it reads, or `None` where it reports an error.
pub uninterp spec fn parsed_address(text: Seq<char>) -> Option<Seq<u8>>;

/// Calls `ethers::types::Address::from_str` (the `FromStr` impl of `H160`) on
/// `text`. Nothing is claimed of which texts are accepted: the result is only
/// named, as `parsed_address` of the text, and the bytes of an accepted address
/// are those that the call returned.
#[verifier::external_body]
fn parse_address(text: &str) -> (parsed: Option<Address>)
    ensures
        match parsed {
            Some(address) => parsed_address(text@) == Some(address@),
            None => parsed_address(text@).is_none(),
        },
{
    match <ethers::types::Address as std::str::FromStr>::from_str(text) {
        Ok(address) => Some(Address { bytes: address.0 }),
        Err(_) => None,
    }
}

impl Address {
    /// The address with the given bytes.
    pub fn from_bytes(bytes: [u8; 20]) -> (address: Address)
        ensures
            address.bytes == bytes,
    {
        Address { bytes }
    }

    /// The bytes of the address.
    pub fn to_bytes(&self) -> (bytes: [u8; 20])
        ensures
            bytes == self.bytes,
    {
        self.bytes
    }

    /// Reads an address from hexadecimal text, with or without a leading `0x`.
    /// `None` is returned exactly for the texts that are no address.
    pub fn from_hex(text: &str) -> (parsed: Option<Address>)
        ensures
            match parsed {
                Some(address) => parsed_address(text@) == Some(address@),
                None => parsed_address(text@).is_none(),
            },
    {
        parse_address(text)
    }
}

/// Addresses with the same bytes are the same address.
pub proof fn lemma_address_by_bytes(a: Address, b: Address)
    ensures
        a@ == b@ <==> a == b,
{
    if a@ == b@ {
        assert(a.bytes =~= b.bytes);
    }
}

} // verus!
