//! Storage addresses and byte helpers.
use vstd::prelude::*;

pub mod random_number_generator;

use vstd::string::StringSliceAdditionalSpecFns;
use crate::big_endian::{be_value, lemma_be_value_concat, lemma_be_value_zeros, lemma_pow256_values, pow256};
use crate::error::Error;
use crate::felt::{be_u128, join_halves, u128_to_be_bytes, Felt};
use crate::hash::{address_bound, felt_values, pedersen_array, pedersen_hash_array, sn_keccak, starknet_keccak, storage_var_address};
use crate::patricia_key::{patricia_key_bound, PatriciaKey, StorageKey};

verus! {

/// The storage address of the variable `storage_var_name` with the arguments
/// `args`: the hash of the sequence made of the Keccak of the name's bytes and
/// of the arguments, reduced into a key below `2^251 - 256`. Every name has one.
pub fn get_storage_var_address(storage_var_name: &str, args: &[Felt]) -> (r: Result<StorageKey, Error>)
    ensures
        r matches Ok(key) && key@ == storage_var_address(
            storage_var_name.spec_bytes(),
            felt_values(args@),
        ) && key@ < address_bound(),
{
    let selector = starknet_keccak(storage_var_name.as_bytes());
    let mut felts: Vec<Felt> = Vec::new();
    felts.push(selector);
    let mut i: usize = 0;
    while i < args.len()
        invariant
            i <= args.len(),
            felts@ == seq![selector] + args@.take(i as int),
        decreases args.len() - i,
    {
        felts.push(args[i]);
        assert(args@.take(i + 1) =~= args@.take(i as int).push(args@[i as int]));
        assert(felts@ =~= seq![selector] + args@.take(i + 1));
        i += 1;
    }
    proof {
        assert(args@ =~= args@.take(args.len() as int));
        assert(felt_values(felts@) =~= seq![sn_keccak(storage_var_name.spec_bytes())] + felt_values(
            args@,
        ));
    }
    let hashed = pedersen_hash_array(felts.as_slice());
    let reduced = normalize_address(&hashed);
    PatriciaKey::new(reduced)
}

/// The field element reduced below the address bound: what is left of it
/// after division by `2^251 - 256`.
pub fn normalize_address(felt: &Felt) -> (r: Felt)
    ensures
        r@ == felt@ % address_bound(),
{
    let bytes = felt.bytes();
    let high = be_u128(&bytes, 0);
    let low = be_u128(&bytes, 16);
    let bound_high: u128 = 0x07ff_ffff_ffff_ffff_ffff_ffff_ffff_ffff;
    let bound_low: u128 = 0xffff_ffff_ffff_ffff_ffff_ffff_ffff_ff00;
    proof {
        assert(bytes@ =~= bytes@.subrange(0, 16) + bytes@.subrange(16, 32));
        lemma_be_value_concat(bytes@.subrange(0, 16), bytes@.subrange(16, 32));
        lemma_pow256_values();
        assert(felt@ == high * 0x1_0000_0000_0000_0000_0000_0000_0000_0000 + low);
    }
    if high < bound_high || (high == bound_high && low < bound_low) {
        return *felt;
    }
    let (new_high, new_low): (u128, u128) = if low >= bound_low {
        (high - bound_high, low - bound_low)
    } else {
        (high - bound_high - 1, low + 0x100)
    };
    let high_bytes = u128_to_be_bytes(new_high);
    let low_bytes = u128_to_be_bytes(new_low);
    let reduced = join_halves(&high_bytes, &low_bytes);
    proof {
        lemma_be_value_concat(high_bytes@, low_bytes@);
        let shift = 0x1_0000_0000_0000_0000_0000_0000_0000_0000int;
        assert(be_value(reduced@) == new_high * shift + new_low);
        assert(address_bound() == bound_high * shift + bound_low);
        assert(new_high * shift + new_low == (high * shift + low) - (bound_high * shift + bound_low));
        assert(be_value(reduced@) == felt@ - address_bound());
    }
    Felt::from_canonical_bytes(reduced)
}

/// Every storage address is below `2^251 - 256`, and so a key of the state tree.
pub proof fn lemma_storage_var_address_in_range(name: Seq<u8>, args: Seq<nat>)
    ensures
        storage_var_address(name, args) < address_bound(),
        address_bound() < patricia_key_bound(),
{
    assert(pedersen_array(seq![sn_keccak(name)] + args) % address_bound() < address_bound());
}

/// The 32 big-endian bytes of `num`.
pub fn get_bytes_from_u32(num: u32) -> (result: [u8; 32])
    ensures
        be_value(result@) == num,
{
    let high: [u8; 16] = [0u8; 16];
    let low = u128_to_be_bytes(num as u128);
    let result = join_halves(&high, &low);
    proof {
        lemma_be_value_concat(high@, low@);
        lemma_be_value_zeros(high@);
        lemma_pow256_values();
        assert(0 * pow256(16) == 0);
    }
    result
}

} // verus!
