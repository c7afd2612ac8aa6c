//! Keys of the state tree: field elements below `2^251`.
use vstd::prelude::*;
use crate::big_endian::{be_value, less_than_be, lemma_pow256_values};
use crate::error::Error;
use crate::felt::{lemma_be_value_literal, Felt};

verus! {

/// `2^251`, the bound of the keys of the state tree.
pub open spec fn patricia_key_bound() -> nat {
    0x800000000000000000000000000000000000000000000000000000000000000nat
}

/// The big-endian bytes of the bound.
fn patricia_key_bound_bytes() -> (p: [u8; 32])
    ensures
        be_value(p@) == patricia_key_bound(),
{
    let p: [u8; 32] = [
        0x08, 0, 0, 0, 0, 0, 0, 0,
        0, 0, 0, 0, 0, 0, 0, 0,
        0, 0, 0, 0, 0, 0, 0, 0,
        0, 0, 0, 0, 0, 0, 0, 0,
    ];
    proof {
        lemma_be_value_literal(p@);
        lemma_pow256_values();
    }
    p
}

/// A key of the state tree.
#[derive(Debug, Clone, Copy)]
pub struct PatriciaKey {
    felt: Felt,
}

/// The key of a storage cell.
pub type StorageKey = PatriciaKey;

impl View for PatriciaKey {
    type V = nat;

    closed spec fn view(&self) -> nat {
        self.felt@
    }
}

impl PatriciaKey {
    #[verifier::type_invariant]
    spec fn in_range(self) -> bool {
        self.felt@ < patricia_key_bound()
    }

    /// The key of a field element below the bound; an error for another one.
    pub fn new(felt: Felt) -> (r: Result<PatriciaKey, Error>)
        ensures
            felt@ < patricia_key_bound() ==> (r matches Ok(key) && key@ == felt@),
            felt@ >= patricia_key_bound() ==> r == Err::<PatriciaKey, Error>(Error::InvalidFeltEncoding),
    {
        let bound = patricia_key_bound_bytes();
        let bytes = felt.bytes();
        if less_than_be(&bytes, &bound) {
            Ok(PatriciaKey { felt })
        } else {
            Err(Error::InvalidFeltEncoding)
        }
    }

    /// The field element of the key.
    pub fn to_felt(&self) -> (r: Felt)
        ensures
            r@ == self@,
            r@ < patricia_key_bound(),
    {
        proof {
            use_type_invariant(self);
        }
        self.felt
    }
}

/// The address of a contract: a key of the state tree.
#[derive(Debug, Clone, Copy)]
pub struct ContractAddress {
    key: PatriciaKey,
}

impl View for ContractAddress {
    type V = nat;

    closed spec fn view(&self) -> nat {
        self.key@
    }
}

impl ContractAddress {
    /// The address of a field element below the bound; an error for another one.
    pub fn new(felt: Felt) -> (r: Result<ContractAddress, Error>)
        ensures
            felt@ < patricia_key_bound() ==> (r matches Ok(address) && address@ == felt@),
            felt@ >= patricia_key_bound() ==> r == Err::<ContractAddress, Error>(Error::InvalidFeltEncoding),
    {
        match PatriciaKey::new(felt) {
            Ok(key) => Ok(ContractAddress { key }),
            Err(e) => Err(e),
        }
    }

    /// The field element of the address.
    pub fn to_felt(&self) -> (r: Felt)
        ensures
            r@ == self@,
            r@ < patricia_key_bound(),
    {
        self.key.to_felt()
    }
}

} // verus!
