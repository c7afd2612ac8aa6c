use devnet_core::error::Error;
use devnet_core::felt::Felt;

const PRIME: &str = "0x800000000000011000000000000000000000000000000000000000000000001";
const PRIME_MINUS_ONE: &str = "0x800000000000011000000000000000000000000000000000000000000000000";

#[test]
fn zero_is_written_as_a_single_digit() {
    assert_eq!(Felt::zero().to_prefixed_hex_str(), "0x0");
    assert_eq!(Felt::default().bytes(), [0u8; 32]);
}

#[test]
fn hex_is_written_without_padding() {
    assert_eq!(Felt::from_u128(0xDD10).to_prefixed_hex_str(), "0xdd10");
    assert_eq!(Felt::from_u128(u128::MAX).to_prefixed_hex_str(), "0xffffffffffffffffffffffffffffffff");
}

#[test]
fn hex_round_trips() {
    let felt = Felt::from_prefixed_hex_str("0x03d937c035c878245caf64531a5756109c53068da139362728feb561405371cb").unwrap();
    assert_eq!(
        felt.to_prefixed_hex_str(),
        "0x3d937c035c878245caf64531a5756109c53068da139362728feb561405371cb"
    );
    assert_eq!(Felt::from_prefixed_hex_str(&felt.to_prefixed_hex_str()).unwrap(), felt);
}

#[test]
fn hex_of_either_case_is_read() {
    assert_eq!(Felt::from_prefixed_hex_str("0xDD10").unwrap(), Felt::from_u128(0xdd10));
    assert_eq!(Felt::from_prefixed_hex_str("0xdD10").unwrap(), Felt::from_u128(0xdd10));
    assert_eq!(Felt::from_prefixed_hex_str("0x").unwrap(), Felt::zero());
    assert_eq!(Felt::from_prefixed_hex_str("0x000a").unwrap(), Felt::from_u128(10));
}

#[test]
fn bad_hex_is_rejected() {
    assert_eq!(Felt::from_prefixed_hex_str("dd10"), Err(Error::InvalidFeltEncoding));
    assert_eq!(Felt::from_prefixed_hex_str("0xg1"), Err(Error::InvalidFeltEncoding));
    assert_eq!(Felt::from_prefixed_hex_str(""), Err(Error::InvalidFeltEncoding));
    assert_eq!(Felt::from_prefixed_hex_str("0X10"), Err(Error::InvalidFeltEncoding));
    let too_long = format!("0x{}", "0".repeat(65));
    assert_eq!(Felt::from_prefixed_hex_str(&too_long), Err(Error::InvalidFeltEncoding));
}

#[test]
fn the_prime_is_the_first_number_rejected() {
    assert_eq!(Felt::from_prefixed_hex_str(PRIME), Err(Error::InvalidFeltEncoding));
    let last = Felt::from_prefixed_hex_str(PRIME_MINUS_ONE).unwrap();
    assert_eq!(last.to_prefixed_hex_str(), PRIME_MINUS_ONE);
    let all_ones = format!("0x{}", "f".repeat(64));
    assert_eq!(Felt::from_prefixed_hex_str(&all_ones), Err(Error::InvalidFeltEncoding));
}

#[test]
fn bytes_below_the_prime_make_an_element() {
    let mut bytes = [0u8; 32];
    bytes[31] = 7;
    assert_eq!(Felt::new(bytes).unwrap(), Felt::from_u128(7));
    bytes[0] = 0x08;
    bytes[7] = 0x11;
    bytes[31] = 1;
    assert_eq!(Felt::new(bytes), Err(Error::InvalidFeltEncoding));
    bytes[31] = 0;
    assert_eq!(Felt::new(bytes).unwrap().bytes(), bytes);
    assert_eq!(Felt::new([0xff; 32]), Err(Error::InvalidFeltEncoding));
}

#[test]
fn from_u128_is_big_endian() {
    let bytes = Felt::from_u128(0x0102030405060708090a0b0c0d0e0f10).bytes();
    assert_eq!(&bytes[..16], &[0u8; 16]);
    assert_eq!(&bytes[16..], &[1u8, 2, 3, 4, 5, 6, 7, 8, 9, 10, 11, 12, 13, 14, 15, 16]);
}

#[test]
fn equal_elements_compare_equal() {
    assert_eq!(Felt::from_u128(5), Felt::from_prefixed_hex_str("0x5").unwrap());
    assert_ne!(Felt::from_u128(5), Felt::from_u128(6));
}
