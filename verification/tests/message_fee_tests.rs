use devnet_core::error::Error;
use devnet_core::estimate_message_fee::{
    BlockId, BlockTag, EstimateMessageFeeRequestWrapper, EthAddressWrapper, FeeEstimateWrapper, MsgFromL1, PriceUnit,
};
use devnet_core::felt::Felt;

fn request(to_address: Felt, payload: Vec<Felt>) -> EstimateMessageFeeRequestWrapper {
    let mut from = [0u8; 20];
    from[0] = 0x8e;
    from[19] = 0x01;
    EstimateMessageFeeRequestWrapper::new(
        BlockId::Tag(BlockTag::Latest),
        MsgFromL1 {
            from_address: EthAddressWrapper::new(from),
            to_address,
            entry_point_selector: Felt::from_prefixed_hex_str(
                "0xc73f681176fc7b3f9693986fd7b14581e8d540519e27400e88b8713932be01",
            )
            .unwrap(),
            payload,
        },
    )
}

#[test]
fn fee_in_wei_is_gas_times_price() {
    let estimate = FeeEstimateWrapper::new_in_wei_units(10, 5).get_estimate();
    assert_eq!(estimate.gas_consumed, Felt::from_u128(10));
    assert_eq!(estimate.gas_price, Felt::from_u128(5));
    assert_eq!(estimate.overall_fee, Felt::from_u128(50));
    assert_eq!(estimate.unit, PriceUnit::Wei);
}

#[test]
fn fee_is_gas_times_price_in_either_unit() {
    let estimate = FeeEstimateWrapper::new(10, 5, PriceUnit::Wei).get_estimate();
    assert_eq!(estimate.overall_fee, Felt::from_u128(50));
    assert_eq!(estimate.unit, PriceUnit::Wei);
    let other = FeeEstimateWrapper::new(3, 0, PriceUnit::Fri).get_estimate();
    assert_eq!(other.gas_consumed, Felt::from_u128(3));
    assert_eq!(other.overall_fee, Felt::zero());
    assert_eq!(other.unit, PriceUnit::Fri);
}

#[test]
fn fee_in_fri_is_gas_times_price() {
    let estimate = FeeEstimateWrapper::new_in_strk_units(u64::MAX, u64::MAX).get_estimate();
    assert_eq!(estimate.overall_fee, Felt::from_u128(u64::MAX as u128 * u64::MAX as u128));
    assert_eq!(estimate.unit, PriceUnit::Fri);
}

#[test]
fn handler_calldata_is_the_sender_and_the_payload() {
    let payload = vec![Felt::from_u128(1), Felt::from_u128(2), Felt::from_u128(1)];
    let request = request(Felt::from_u128(0x1234), payload.clone());
    let tx = request.create_blockifier_l1_transaction().unwrap();
    assert_eq!(tx.calldata.len(), 4);
    assert_eq!(tx.calldata[0].to_prefixed_hex_str(), "0x8e00000000000000000000000000000000000001");
    assert_eq!(&tx.calldata[1..], &payload[..]);
    assert_eq!(tx.contract_address.to_felt(), Felt::from_u128(0x1234));
    assert_eq!(tx.entry_point_selector, request.get_entry_point_selector());
    assert_eq!(tx.paid_fee_on_l1, 1);
    assert_eq!(tx.tx_hash, None);
}

#[test]
fn handler_of_a_message_out_of_range_is_refused() {
    let bound = Felt::from_prefixed_hex_str("0x800000000000000000000000000000000000000000000000000000000000000").unwrap();
    assert_eq!(request(bound, vec![]).create_blockifier_l1_transaction().err(), Some(Error::InvalidFeltEncoding));
}

#[test]
fn request_hands_back_its_parts() {
    let request = request(Felt::from_u128(9), vec![Felt::from_u128(3)]);
    assert_eq!(request.get_to_address(), Felt::from_u128(9));
    assert_eq!(request.get_payload(), vec![Felt::from_u128(3)]);
    assert_eq!(request.get_from_address().inner[0], 0x8e);
    assert!(matches!(request.get_block_id(), BlockId::Tag(BlockTag::Latest)));
    assert_eq!(request.get_raw_message().payload, vec![Felt::from_u128(3)]);
}

#[test]
fn address_of_all_ones_fits_the_field() {
    let felt = EthAddressWrapper::new([0xff; 20]).to_felt();
    assert_eq!(felt.to_prefixed_hex_str(), format!("0x{}", "f".repeat(40)));
}
