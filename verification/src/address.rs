use vstd::prelude::*;

verus! {

/// Which kind of ledger entity an address names.
#[derive(Clone, Copy, Debug, PartialEq, Eq, Hash, Structural)]
pub enum AddressKind {
    /// A user account, named by its ed25519 public key.
    Account,
    /// A deployed contract, named by its contract hash.
    Contract,
}

/// An account or contract address on the ledger: its kind and its 32-byte key.
#[derive(Clone, Copy, Debug, PartialEq, Eq, Hash)]
pub struct Address {
    pub kind: AddressKind,
    pub key: [u8; 32],
}

/// A key of a `KeyedMap`: a copyable value whose executable comparison agrees
/// with equality of values.
pub trait MapKey: Copy + Sized {
    fn same(&self, other: &Self) -> (r: bool)
        ensures
            r == (*self == *other),
    ;
}

impl MapKey for Address {
    fn same(&self, other: &Self) -> (r: bool) {
        if self.kind != other.kind {
            return false;
        }
        let mut i: usize = 0;
        while i < 32
            invariant
                0 <= i <= 32,
                self.kind == other.kind,
                forall|j: int| 0 <= j < i ==> self.key[j] == other.key[j],
            decreases 32 - i,
        {
            if self.key[i] != other.key[i] {
                return false;
            }
            i = i + 1;
        }
        proof {
            assert(self.key =~= other.key);
        }
        true
    }
}

/// An ordered pair of addresses, used to key approvals by owner and spender.
#[derive(Clone, Copy, Debug, PartialEq, Eq)]
pub struct AddressPair {
    pub first: Address,
    pub second: Address,
}

impl MapKey for AddressPair {
    fn same(&self, other: &Self) -> (r: bool) {
        self.first.same(&other.first) && self.second.same(&other.second)
    }
}

/// A numeric id paired with an address, used to key per-holder flags of a
/// numbered record.
#[derive(Clone, Copy, Debug, PartialEq, Eq)]
pub struct IdAddress {
    pub id: u64,
    pub address: Address,
}

impl MapKey for IdAddress {
    fn same(&self, other: &Self) -> (r: bool) {
        self.id == other.id && self.address.same(&other.address)
    }
}

impl Address {
    /// Whether two addresses are the same.
    pub fn equals(&self, other: &Address) -> (r: bool)
        ensures
            r == (*self == *other),
    {
        self.same(other)
    }
}

} // verus!
