//! Addresses: the identities of accounts and contracts.

use vstd::prelude::*;

verus! {

/// Thirty-two bytes: a hash, a salt or a public key.
pub type Bytes32 = [u8; 32];

/// An address names either a classic account, by its ed25519 public key, or
/// a contract, by its contract id.
#[derive(Copy, Clone, Debug, PartialEq, Eq)]
pub enum Address {
    Account(Bytes32),
    Contract(Bytes32),
}

/// Whether two arrays hold the same bytes.
pub fn bytes32_eq(a: &Bytes32, b: &Bytes32) -> (same: bool)
    ensures
        same == (a@ == b@),
        same == (*a == *b),
{
    let mut i: usize = 0;
    while i < 32
        invariant
            i <= 32,
            forall|j: int| 0 <= j < i ==> a@[j] == b@[j],
        decreases 32 - i,
    {
        if a[i] != b[i] {
            return false;
        }
        i = i + 1;
    }
    assert(a@ =~= b@);
    assert(*a =~= *b);
    true
}

impl Address {
    /// The serialized form of the address: the tag of an address value
    /// (18), the tag of the kind of address (0 for an account, 1 for a
    /// contract), for an account the tag of an ed25519 public key (0), and
    /// the identifier. Each tag is a big-endian 32-bit number.
    pub open spec fn xdr(self) -> Seq<u8> {
        match self {
            Address::Account(key) => seq![0u8, 0, 0, 18, 0, 0, 0, 0, 0, 0, 0, 0] + key@,
            Address::Contract(hash) => seq![0u8, 0, 0, 18, 0, 0, 0, 1] + hash@,
        }
    }

    /// Whether `self` and `other` name the same account or contract.
    pub fn same(&self, other: &Address) -> (same: bool)
        ensures
            same == (*self == *other),
    {
        match (self, other) {
            (Address::Account(a), Address::Account(b)) => bytes32_eq(a, b),
            (Address::Contract(a), Address::Contract(b)) => bytes32_eq(a, b),
            _ => false,
        }
    }
}

/// The serialized form tells addresses apart: two addresses with the same
/// serialized form are the same address.
pub proof fn lemma_xdr_injective(a: Address, b: Address)
    requires
        a.xdr() == b.xdr(),
    ensures
        a == b,
{
    let xa = a.xdr();
    let xb = b.xdr();
    assert(xa[7] == xb[7]);
    match (a, b) {
        (Address::Account(ka), Address::Account(kb)) => {
            assert(ka@ =~= xa.subrange(12, 44));
            assert(kb@ =~= xb.subrange(12, 44));
            assert(ka =~= kb);
        },
        (Address::Contract(ha), Address::Contract(hb)) => {
            assert(ha@ =~= xa.subrange(8, 40));
            assert(hb@ =~= xb.subrange(8, 40));
            assert(ha =~= hb);
        },
        _ => {},
    }
}

} // verus!
