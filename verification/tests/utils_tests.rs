use devnet_core::felt::Felt;
use devnet_core::hash::{pedersen_hash_array, starknet_keccak};
use devnet_core::utils::random_number_generator::{generate_u128_random_numbers, generate_u32_random_number};
use devnet_core::utils::{get_bytes_from_u32, get_storage_var_address, normalize_address};

const ADDRESS_BOUND: &str = "0x7ffffffffffffffffffffffffffffffffffffffffffffffffffffffffffff00";

fn dummy_felt() -> Felt {
    Felt::from_prefixed_hex_str("0xDD10").unwrap()
}

fn felt(hex: &str) -> Felt {
    Felt::from_prefixed_hex_str(hex).unwrap()
}

#[test]
fn correct_bytes_from_number() {
    let result = get_bytes_from_u32(123);
    assert!(result[31] == 123)
}

#[test]
fn bytes_from_number_are_big_endian() {
    let result = get_bytes_from_u32(0x01020304);
    assert_eq!(&result[..28], &[0u8; 28]);
    assert_eq!(&result[28..], &[1u8, 2, 3, 4]);
}

#[test]
fn correct_simple_storage_var_address_generated() {
    let expected_storage_var_address = felt("0x3c2aa0a8fcf50a2e72ae5122384ed623480e2f2d2aad5780a7b96acc826bcb4");
    let generated_storage_var_address = get_storage_var_address("simple", &[]).unwrap();

    assert_eq!(expected_storage_var_address.bytes(), generated_storage_var_address.to_felt().bytes());
}

#[test]
fn correct_complex_storage_var_address_generated() {
    let expected_storage_var_address = felt("0x7f70178db4745e9491bec829633e16b2ea225047ed5d122a99c40377f8a681a");

    let generated_storage_var_address = get_storage_var_address("complex", &[dummy_felt()]).unwrap();

    assert_eq!(expected_storage_var_address.bytes(), generated_storage_var_address.to_felt().bytes());
}

#[test]
fn storage_address_is_the_array_hash_of_selector_and_arguments() {
    let key = get_storage_var_address("transfer", &[]).unwrap();
    assert_eq!(
        key.to_felt().to_prefixed_hex_str(),
        "0x4782eb5e2161c9b9ae2ecf85df56bcfe241e63524cc86bd833581cac19a694f"
    );
    assert_eq!(key.to_felt(), pedersen_hash_array(&[starknet_keccak(b"transfer")]));
    let with_arguments = get_storage_var_address("balances", &[Felt::from_u128(1), Felt::from_u128(2)]).unwrap();
    assert_eq!(
        with_arguments.to_felt().to_prefixed_hex_str(),
        "0xb1bc46e370e7913286e2575ec295afa94a70490db1f53492cd99fdd90a1978"
    );
}

#[test]
fn storage_address_depends_on_the_order_of_arguments() {
    let a = Felt::from_u128(1);
    let b = Felt::from_u128(2);
    let forward = get_storage_var_address("balances", &[a, b]).unwrap().to_felt();
    let backward = get_storage_var_address("balances", &[b, a]).unwrap().to_felt();
    assert_ne!(forward, backward);
}

#[test]
fn storage_address_is_below_the_bound() {
    let bound = felt(ADDRESS_BOUND).bytes();
    for name in ["a", "b", "ERC20_balances", "x_y_z", "", "caf\u{e9}"] {
        for n in 0..8u128 {
            let key = get_storage_var_address(name, &[Felt::from_u128(n), dummy_felt()]).unwrap();
            assert!(key.to_felt().bytes() < bound);
        }
    }
}

#[test]
fn every_name_has_a_storage_address() {
    let key = get_storage_var_address("\u{e9}", &[]).unwrap();
    assert_eq!(
        key.to_felt().to_prefixed_hex_str(),
        "0x7241e280af4db90c94e885cd02a857356bb6358ecbee25557aa26c8a250d3a5"
    );
    let unnamed = get_storage_var_address("", &[]).unwrap();
    assert_eq!(
        unnamed.to_felt().to_prefixed_hex_str(),
        "0x4c72a5afff1cbc29edab2442ad10c2112ee59902eb5ea76858241833dd2d8cc"
    );
}

#[test]
fn reduction_takes_the_bound_off_once() {
    assert_eq!(normalize_address(&felt(ADDRESS_BOUND)), Felt::zero());
    let below = felt("0x7fffffffffffffffffffffffffffffffffffffffffffffffffffffffffffeff");
    assert_eq!(normalize_address(&below), below);
    let last = felt("0x800000000000011000000000000000000000000000000000000000000000000");
    assert_eq!(
        normalize_address(&last).to_prefixed_hex_str(),
        "0x11000000000000000000000000000000000000000000000100"
    );
    let borrow = felt("0x800000000000000000000000000000000000000000000000000000000000005");
    assert_eq!(normalize_address(&borrow).to_prefixed_hex_str(), "0x105");
    assert_eq!(normalize_address(&Felt::from_u128(77)), Felt::from_u128(77));
}

#[test]
fn seeded_numbers_are_the_same_for_the_same_seed() {
    let first = generate_u128_random_numbers(7, 5);
    assert_eq!(first.len(), 5);
    assert_eq!(generate_u128_random_numbers(7, 5), first);
    assert_eq!(&generate_u128_random_numbers(7, 3)[..], &first[..3]);
    assert_ne!(generate_u128_random_numbers(8, 5), first);
    assert!(generate_u128_random_numbers(7, 0).is_empty());
    assert_eq!(generate_u128_random_numbers(7, 255).len(), 255);
}

#[test]
fn seeded_numbers_are_no_constant() {
    let numbers = generate_u128_random_numbers(0, 4);
    assert_ne!(numbers[0], numbers[1]);
    assert_ne!(numbers[0], 0);
}

#[test]
fn a_random_number_comes() {
    let drawn: Vec<u32> = (0..8).map(|_| generate_u32_random_number()).collect();
    assert!(drawn.iter().any(|n| *n != drawn[0]));
}
