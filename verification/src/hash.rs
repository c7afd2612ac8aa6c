//! The hash primitives of Starknet, taken from `starknet-core`, and what is
//! believed of them.
use vstd::prelude::*;
use starknet_core::types::FieldElement;
use crate::big_endian::{be_value, pow256, lemma_be_value_concat, lemma_be_value_bound, lemma_pow256_values};
use crate::felt::{prime, Felt};

verus! {

/// The Pedersen hash of two field elements, as `starknet_crypto::pedersen_hash`
/// computes it.
pub uninterp spec fn pedersen(a: nat, b: nat) -> nat;

/// The Starknet Keccak of a byte string, as `starknet_core::utils::starknet_keccak`
/// computes it: the Keccak-256 digest with its six highest bits cleared.
pub uninterp spec fn sn_keccak(data: Seq<u8>) -> nat;

/// The numbers that a sequence of field elements stands for.
pub open spec fn felt_values(felts: Seq<Felt>) -> Seq<nat> {
    felts.map_values(|f: Felt| f@)
}

/// Pedersen chained over `xs` from the left, starting at `acc`.
pub open spec fn pedersen_fold(acc: nat, xs: Seq<nat>) -> nat
    decreases xs.len(),
{
    if xs.len() == 0 {
        acc
    } else {
        pedersen(pedersen_fold(acc, xs.drop_last()), xs.last())
    }
}

/// The hash of a sequence: the chain from zero, closed by the sequence's length.
pub open spec fn pedersen_array(xs: Seq<nat>) -> nat {
    pedersen(pedersen_fold(0, xs), xs.len())
}

/// `2^250`, the bound of the Starknet Keccak.
pub open spec fn keccak_bound() -> nat {
    0x400000000000000000000000000000000000000000000000000000000000000nat
}

/// `2^251 - 256`, the bound of storage addresses.
pub open spec fn address_bound() -> nat {
    0x7ffffffffffffffffffffffffffffffffffffffffffffffffffffffffffff00nat
}

/// The address of a storage variable: the hash of the sequence made of the
/// Keccak of its name and of its arguments, reduced below the address bound.
pub open spec fn storage_var_address(name: Seq<u8>, args: Seq<nat>) -> nat {
    pedersen_array(seq![sn_keccak(name)] + args) % address_bound()
}

/// Calls `starknet_core::crypto::pedersen_hash`. Believed: the result is the
/// canonical form of the hash named `pedersen`, taken of the two elements.
#[verifier::external_body]
fn pedersen_hash_bytes(a: &Felt, b: &Felt) -> (r: [u8; 32])
    ensures
        be_value(r@) == pedersen(a@, b@),
        be_value(r@) < prime(),
{
    let x = FieldElement::from_bytes_be(&a.bytes()).unwrap();
    let y = FieldElement::from_bytes_be(&b.bytes()).unwrap();
    starknet_core::crypto::pedersen_hash(&x, &y).to_bytes_be()
}

/// Calls `starknet_core::crypto::compute_hash_on_elements`. Believed: the
/// result is the canonical form of the Pedersen chain over the elements from
/// zero, hashed at last with their count.
#[verifier::external_body]
fn compute_hash_on_elements(felts: &[Felt]) -> (r: [u8; 32])
    ensures
        be_value(r@) == pedersen(pedersen_fold(0, felt_values(felts@)), felts@.len()),
        be_value(r@) < prime(),
{
    let elements: Vec<FieldElement> =
        felts.iter().map(|f| FieldElement::from_bytes_be(&f.bytes()).unwrap()).collect();
    starknet_core::crypto::compute_hash_on_elements(&elements).to_bytes_be()
}

/// Calls `starknet_core::utils::starknet_keccak`. Believed: the result is the
/// digest named `sn_keccak`, and its first byte holds two bits at most.
#[verifier::external_body]
fn starknet_keccak_bytes(data: &[u8]) -> (r: [u8; 32])
    ensures
        be_value(r@) == sn_keccak(data@),
        r@[0] <= 3,
{
    starknet_core::utils::starknet_keccak(data).to_bytes_be()
}

/// A 32-byte string whose first byte is at most 3 spells a number below `2^250`.
proof fn lemma_keccak_range(bytes: Seq<u8>)
    requires
        bytes.len() == 32,
        bytes[0] <= 3,
    ensures
        be_value(bytes) < keccak_bound(),
        keccak_bound() < prime(),
{
    let head = bytes.take(1);
    let tail = bytes.skip(1);
    assert(bytes =~= head + tail);
    lemma_be_value_concat(head, tail);
    lemma_be_value_bound(tail);
    lemma_pow256_values();
    assert(be_value(head) == bytes[0]) by {
        reveal_with_fuel(be_value, 2);
        assert(head.drop_last() =~= Seq::<u8>::empty());
    }
    let h = be_value(head);
    let p = pow256(31);
    assert(h * p <= 3 * p) by (nonlinear_arith)
        requires
            h <= 3,
            p >= 0,
    ;
}

/// The Pedersen hash of two field elements.
pub fn pedersen_hash(a: &Felt, b: &Felt) -> (r: Felt)
    ensures
        r@ == pedersen(a@, b@),
{
    let bytes = pedersen_hash_bytes(a, b);
    Felt::from_canonical_bytes(bytes)
}

/// The Pedersen hash of a sequence of field elements.
pub fn pedersen_hash_array(felts: &[Felt]) -> (r: Felt)
    ensures
        r@ == pedersen_array(felt_values(felts@)),
{
    let bytes = compute_hash_on_elements(felts);
    Felt::from_canonical_bytes(bytes)
}

/// The Starknet Keccak of a byte string: a field element below `2^250`.
pub fn starknet_keccak(data: &[u8]) -> (r: Felt)
    ensures
        r@ == sn_keccak(data@),
        r@ < keccak_bound(),
{
    let bytes = starknet_keccak_bytes(data);
    proof {
        lemma_keccak_range(bytes@);
    }
    Felt::from_canonical_bytes(bytes)
}

} // verus!
