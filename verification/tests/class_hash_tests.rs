use devnet_core::canonical::{compute_hinted_class_hash, traverse_and_exclude_recursively};
use devnet_core::contract_class::{compute_class_hash, ContractClass, StructuredClass};
use devnet_core::error::Error;
use devnet_core::felt::Felt;
use devnet_core::hash::{pedersen_hash_array, starknet_keccak};
use devnet_core::json::{JsonValue, Member};
use devnet_core::json_text::parse_json;
use devnet_core::traits::HashProducer;
use starknet_core::crypto::{compute_hash_on_elements, pedersen_hash};
use starknet_core::types::FieldElement;

const CLASS: &str = r#"{
    "abi": [{"name": "f", "type": "function", "inputs": [], "outputs": []}],
    "entry_points_by_type": {
        "CONSTRUCTOR": [{"offset": 9, "selector": "0x7"}],
        "EXTERNAL": [{"offset": "0x3", "selector": "0x5"}, {"offset": "0x1f", "selector": "0x6"}],
        "L1_HANDLER": []
    },
    "program": {
        "attributes": [],
        "builtins": ["pedersen", "range_check"],
        "data": ["0x1", "0x2", "0x480680017fff8000"],
        "debug_info": {"file_contents": {}, "instruction_locations": {"0": 1}},
        "hints": {"0": [{"accessible_scopes": [], "code": "a\nb \"q\""}]},
        "prime": "0x800000000000011000000000000000000000000000000000000000000000001"
    }
}"#;

const HINTED_TEXT: &str = "{\"abi\": [{\"name\": \"f\", \"type\": \"function\", \"inputs\": [], \"outputs\": []}], \"program\": {\"builtins\": [\"pedersen\", \"range_check\"], \"data\": [\"0x1\", \"0x2\", \"0x480680017fff8000\"], \"debug_info\": null, \"hints\": {\"0\": [{\"code\": \"a\\nb \\\"q\\\"\"}]}, \"prime\": \"0x800000000000011000000000000000000000000000000000000000000000001\"}}";

fn felt_of(element: FieldElement) -> Felt {
    Felt::new(element.to_bytes_be()).unwrap()
}

fn small(n: u64) -> FieldElement {
    FieldElement::from(n)
}

#[test]
fn pedersen_of_known_elements() {
    let a = FieldElement::from_hex_be("0x03d937c035c878245caf64531a5756109c53068da139362728feb561405371cb").unwrap();
    let b = FieldElement::from_hex_be("0x0208a0a10250e382e1e4bbe2880906c2791bf6275695e02fbbc6aeff9cd8b31a").unwrap();
    let expected = FieldElement::from_hex_be("0x030e480bed5fe53fa909cc0f8c4d99b8f9f2c016be4c41e13a4848797979c662").unwrap();
    assert_eq!(pedersen_hash(&a, &b), expected);
    let chained = pedersen_hash(&pedersen_hash(&pedersen_hash(&small(0), &a), &b), &small(2));
    assert_eq!(pedersen_hash_array(&[felt_of(a), felt_of(b)]), felt_of(chained));
}

#[test]
fn pedersen_of_two_known_elements() {
    let a = Felt::from_prefixed_hex_str("0x03d937c035c878245caf64531a5756109c53068da139362728feb561405371cb").unwrap();
    let b = Felt::from_prefixed_hex_str("0x0208a0a10250e382e1e4bbe2880906c2791bf6275695e02fbbc6aeff9cd8b31a").unwrap();
    assert_eq!(
        devnet_core::hash::pedersen_hash(&a, &b).to_prefixed_hex_str(),
        "0x30e480bed5fe53fa909cc0f8c4d99b8f9f2c016be4c41e13a4848797979c662"
    );
    assert_ne!(devnet_core::hash::pedersen_hash(&b, &a), devnet_core::hash::pedersen_hash(&a, &b));
}

#[test]
fn pedersen_of_a_sequence_is_the_chain_closed_by_the_length() {
    let a = Felt::from_u128(11);
    let b = Felt::from_u128(22);
    let zero = Felt::zero();
    let chain = devnet_core::hash::pedersen_hash(&devnet_core::hash::pedersen_hash(&zero, &a), &b);
    assert_eq!(pedersen_hash_array(&[a, b]), devnet_core::hash::pedersen_hash(&chain, &Felt::from_u128(2)));
    assert_eq!(
        pedersen_hash_array(&[a, b]).to_prefixed_hex_str(),
        "0x1eecf5ff789bd1c0ab2849437eb7d1caf884b53dac39ba2de3fcf19dd51ee6d"
    );
}

#[test]
fn pedersen_of_no_elements_is_the_hash_of_two_zeros() {
    let expected = pedersen_hash(&small(0), &small(0));
    assert_eq!(pedersen_hash_array(&[]), felt_of(expected));
    assert_eq!(
        pedersen_hash_array(&[]).to_prefixed_hex_str(),
        "0x49ee3eba8c1600700ee1b87eb599f16716b0b1022947733551fde4050ca6804"
    );
}

#[test]
fn keccak_of_a_known_name() {
    assert_eq!(
        starknet_keccak(b"transfer").to_prefixed_hex_str(),
        "0x83afd3f4caedc6eebf44246fe54e38c95e3179a5ec9ea81740eca5b482d12e"
    );
    assert_eq!(
        starknet_keccak(b"").to_prefixed_hex_str(),
        "0x1d2460186f7233c927e7db2dcc703c0e500b653ca82273b7bfad8045d85a470"
    );
}

#[test]
fn canonical_text_keeps_order_and_spacing() {
    let tree = parse_json(r#"{"b":[1,2.50,-3e2,true,false,null],"a":{"z":"s","y":{}},"c":[]}"#).unwrap();
    assert_eq!(
        String::from_utf8(tree.to_canonical_bytes()).unwrap(),
        r#"{"b": [1, 2.50, -3e+2, true, false, null], "a": {"z": "s", "y": {}}, "c": []}"#
    );
}

#[test]
fn canonical_text_escapes_strings() {
    let text = "\u{e9}\u{7f}\u{1F600}\u{800}\u{1}\u{1f}\u{8}\u{c}\n\r\t\\/ ~\"";
    let tree = JsonValue::String(text.as_bytes().to_vec());
    assert_eq!(
        String::from_utf8(tree.to_canonical_bytes()).unwrap(),
        r#""\u00e9\u007f\ud83d\ude00\u0800\u0001\u001f\b\f\n\r\t\\/ ~\"""#
    );
    let stray = JsonValue::String(vec![0xc3, b'a', 0xff, 0x80]);
    assert_eq!(String::from_utf8(stray.to_canonical_bytes()).unwrap(), r#""\u00c3a\u00ff\u0080""#);
    let object = JsonValue::Object(vec![Member { key: b"k\"".to_vec(), value: JsonValue::Null }]);
    assert_eq!(object.to_canonical_bytes(), b"{\"k\\\"\": null}".to_vec());
}

#[test]
fn empty_markers_are_left_out_at_every_depth() {
    let tree = parse_json(
        r#"{"attributes":[],"x":[{"accessible_scopes":[],"attributes":["k"],"y":{"attributes":[]}}],"accessible_scopes":{},"z":[]}"#,
    )
    .unwrap();
    let stripped = traverse_and_exclude_recursively(&tree);
    assert_eq!(
        String::from_utf8(stripped.to_canonical_bytes()).unwrap(),
        r#"{"x": [{"attributes": ["k"], "y": {}}], "accessible_scopes": {}, "z": []}"#
    );
    assert_eq!(traverse_and_exclude_recursively(&stripped), stripped);
}

#[test]
fn hinted_hash_is_the_keccak_of_the_canonical_text() {
    let tree = parse_json(CLASS).unwrap();
    let expected = starknet_core::utils::starknet_keccak(HINTED_TEXT.as_bytes());
    assert_eq!(compute_hinted_class_hash(&tree), felt_of(expected));
    assert_eq!(
        compute_hinted_class_hash(&tree).to_prefixed_hex_str(),
        "0x3de30ef1a7b4ed5ea8d87ad9e889a4244794696dd0aac85796f1c31eb63b0f2"
    );
}

#[test]
fn hinted_hash_escapes_what_is_not_ascii() {
    let tree = parse_json("{\"abi\":[\"caf\u{e9} \u{1F600}\"],\"program\":{\"n\u{e4}me\":\"\u{7f}\"}}").unwrap();
    assert_eq!(
        String::from_utf8(tree.to_canonical_bytes()).unwrap(),
        r#"{"abi": ["caf\u00e9 \ud83d\ude00"], "program": {"n\u00e4me": "\u007f"}}"#
    );
    assert_eq!(
        compute_hinted_class_hash(&tree).to_prefixed_hex_str(),
        "0x35c609a02c720b98284fffbfe6a9857d4f8644cec6cbf3a45c4734b87800eae"
    );
}


#[test]
fn hinted_hash_of_a_class_without_abi_and_program() {
    let tree = parse_json("{}").unwrap();
    assert_eq!(
        compute_hinted_class_hash(&tree).to_prefixed_hex_str(),
        "0x2f58fbf2f235069955c29ce4f8bb8697767d352737200f6b27cacc3422583a5"
    );
    assert!(compute_hinted_class_hash(&tree).bytes()[0] <= 3);
}

#[test]
fn hinted_hash_ignores_empty_markers_but_sees_full_ones() {
    let with_markers = parse_json(
        r#"{"abi":[],"program":{"a":[{"b":{"attributes":[],"accessible_scopes":[],"c":1}}]}}"#,
    )
    .unwrap();
    let without = parse_json(r#"{"abi":[],"program":{"a":[{"b":{"c":1}}]}}"#).unwrap();
    let with_full = parse_json(r#"{"abi":[],"program":{"a":[{"b":{"attributes":["x"],"c":1}}]}}"#).unwrap();
    assert_eq!(compute_hinted_class_hash(&with_markers), compute_hinted_class_hash(&without));
    assert_ne!(compute_hinted_class_hash(&with_full), compute_hinted_class_hash(&without));
}

#[test]
fn class_hash_is_the_hash_of_the_seven_parts() {
    let class = ContractClass::from_json_str(CLASS).unwrap();
    let external = compute_hash_on_elements(&[small(5), small(3), small(6), small(0x1f)]);
    let l1_handler = compute_hash_on_elements(&[]);
    let constructor = compute_hash_on_elements(&[small(7), small(9)]);
    let builtins = compute_hash_on_elements(&[
        FieldElement::from_byte_slice_be(b"pedersen").unwrap(),
        FieldElement::from_byte_slice_be(b"range_check").unwrap(),
    ]);
    let hinted = starknet_core::utils::starknet_keccak(HINTED_TEXT.as_bytes());
    let data = compute_hash_on_elements(&[small(1), small(2), small(0x480680017fff8000)]);
    let expected = compute_hash_on_elements(&[small(0), external, l1_handler, constructor, builtins, hinted, data]);
    assert_eq!(class.generate_hash().unwrap(), felt_of(expected));
    assert_eq!(
        class.generate_hash().unwrap().to_prefixed_hex_str(),
        "0x7d5cbc6fca8b6ec44210f1ccb20c688da6c4c15a1105e2855da9c4ae06b168"
    );
}

#[test]
fn class_hash_ignores_empty_markers_in_abi_and_program() {
    let with_markers = ContractClass::from_json_str(
        r#"{"abi":[{"attributes":[]}],"entry_points_by_type":{"EXTERNAL":[],"L1_HANDLER":[],"CONSTRUCTOR":[]},"program":{"accessible_scopes":[],"data":["0x1"],"hints":{"0":[{"attributes":[],"x":1}]}}}"#,
    )
    .unwrap();
    let without = ContractClass::from_json_str(
        r#"{"abi":[{}],"entry_points_by_type":{"EXTERNAL":[],"L1_HANDLER":[],"CONSTRUCTOR":[]},"program":{"data":["0x1"],"hints":{"0":[{"x":1}]}}}"#,
    )
    .unwrap();
    let with_full = ContractClass::from_json_str(
        r#"{"abi":[{"attributes":["x"]}],"entry_points_by_type":{"EXTERNAL":[],"L1_HANDLER":[],"CONSTRUCTOR":[]},"program":{"data":["0x1"],"hints":{"0":[{"x":1}]}}}"#,
    )
    .unwrap();
    assert_eq!(with_markers.generate_hash().unwrap(), without.generate_hash().unwrap());
    assert_ne!(with_full.generate_hash().unwrap(), without.generate_hash().unwrap());
}


#[test]
fn class_hash_is_the_same_on_every_call() {
    let class = ContractClass::from_json_str(CLASS).unwrap();
    let again = ContractClass::from_json_str(CLASS).unwrap();
    let first = class.generate_hash().unwrap();
    assert_eq!(class.generate_hash().unwrap(), first);
    assert_eq!(again.generate_hash().unwrap(), first);
    assert_eq!(class.clone().generate_hash().unwrap(), first);
}

#[test]
fn class_without_builtins_and_data_hashes_empty_lists() {
    let tree = parse_json(r#"{"entry_points_by_type":{"EXTERNAL":[],"L1_HANDLER":[],"CONSTRUCTOR":[]},"program":{"builtins":7}}"#).unwrap();
    let empty = compute_hash_on_elements(&[]);
    let hinted = starknet_core::utils::starknet_keccak(b"{\"abi\": null, \"program\": {\"builtins\": 7}}");
    let expected = compute_hash_on_elements(&[small(0), empty, empty, empty, empty, hinted, empty]);
    assert_eq!(compute_class_hash(&tree).unwrap(), felt_of(expected));
    assert_eq!(
        compute_class_hash(&tree).unwrap().to_prefixed_hex_str(),
        "0x13ac34353152838c1584b1587efdfbda7e1f58d49b66120ac36ff51a69b8d03"
    );
}

#[test]
fn class_without_required_parts_is_malformed() {
    let no_entry_points = ContractClass::from_json_str(r#"{"program":{}}"#).unwrap();
    assert!(matches!(no_entry_points.generate_hash(), Err(Error::MalformedClass { .. })));
    let no_program = ContractClass::from_json_str(
        r#"{"entry_points_by_type":{"EXTERNAL":[],"L1_HANDLER":[],"CONSTRUCTOR":[]}}"#,
    )
    .unwrap();
    assert!(matches!(no_program.generate_hash(), Err(Error::MalformedClass { .. })));
    let no_l1_handlers =
        ContractClass::from_json_str(r#"{"entry_points_by_type":{"EXTERNAL":[],"CONSTRUCTOR":[]},"program":{}}"#)
            .unwrap();
    assert!(matches!(no_l1_handlers.generate_hash(), Err(Error::MalformedClass { .. })));
    let no_offset = ContractClass::from_json_str(
        r#"{"entry_points_by_type":{"EXTERNAL":[{"selector":"0x1"}],"L1_HANDLER":[],"CONSTRUCTOR":[]},"program":{}}"#,
    )
    .unwrap();
    assert!(matches!(no_offset.generate_hash(), Err(Error::MalformedClass { .. })));
    let data_of_numbers = ContractClass::from_json_str(
        r#"{"entry_points_by_type":{"EXTERNAL":[],"L1_HANDLER":[],"CONSTRUCTOR":[]},"program":{"data":[1]}}"#,
    )
    .unwrap();
    assert!(matches!(data_of_numbers.generate_hash(), Err(Error::MalformedClass { .. })));
}

#[test]
fn class_with_bad_felts_is_rejected() {
    let bad_data = ContractClass::from_json_str(
        r#"{"entry_points_by_type":{"EXTERNAL":[],"L1_HANDLER":[],"CONSTRUCTOR":[]},"program":{"data":["0x1","12"]}}"#,
    )
    .unwrap();
    assert_eq!(bad_data.generate_hash(), Err(Error::InvalidFeltEncoding));
    let data_at_the_prime = ContractClass::from_json_str(
        r#"{"entry_points_by_type":{"EXTERNAL":[],"L1_HANDLER":[],"CONSTRUCTOR":[]},"program":{"data":["0x800000000000011000000000000000000000000000000000000000000000001"]}}"#,
    )
    .unwrap();
    assert_eq!(data_at_the_prime.generate_hash(), Err(Error::InvalidFeltEncoding));
    let long_builtin = ContractClass::from_json_str(
        r#"{"entry_points_by_type":{"EXTERNAL":[],"L1_HANDLER":[],"CONSTRUCTOR":[]},"program":{"builtins":["a_builtin_with_a_name_of_more_than_32_bytes"]}}"#,
    )
    .unwrap();
    assert_eq!(long_builtin.generate_hash(), Err(Error::InvalidFeltEncoding));
    let bad_selector = ContractClass::from_json_str(
        r#"{"entry_points_by_type":{"EXTERNAL":[{"selector":"5","offset":1}],"L1_HANDLER":[],"CONSTRUCTOR":[]},"program":{}}"#,
    )
    .unwrap();
    assert_eq!(bad_selector.generate_hash(), Err(Error::InvalidFeltEncoding));
}

#[test]
fn text_that_is_no_json_is_malformed() {
    assert!(matches!(ContractClass::from_json_str("{\"abi\": "), Err(Error::MalformedClass { .. })));
    assert!(parse_json("[1,]").is_err());
}

#[test]
fn parsed_text_keeps_the_order_of_members() {
    let tree = parse_json(r#"{"z":1,"a":"\u00e9","m":[]}"#).unwrap();
    let expected = JsonValue::Object(vec![
        Member { key: b"z".to_vec(), value: JsonValue::Number(b"1".to_vec()) },
        Member { key: b"a".to_vec(), value: JsonValue::String("\u{e9}".as_bytes().to_vec()) },
        Member { key: b"m".to_vec(), value: JsonValue::Array(vec![]) },
    ]);
    assert_eq!(tree, expected);
    assert_eq!(tree.get("a"), Some(&JsonValue::String(vec![0xc3, 0xa9])));
    assert_eq!(tree.get("b"), None);
    assert_eq!(tree.duplicate(), tree);
}

#[test]
fn structured_class_carries_its_hash() {
    let class = ContractClass::from_structured(StructuredClass::new(Felt::from_u128(0xabc)));
    assert_eq!(class.generate_hash(), Ok(Felt::from_u128(0xabc)));
}
