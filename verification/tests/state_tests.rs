use devnet_core::contract_class::{ContractClass, StructuredClass};
use devnet_core::error::Error;
use devnet_core::felt::Felt;
use devnet_core::patricia_key::ContractAddress;
use devnet_core::state::StarknetState;
use devnet_core::system_contract::{FeeToken, SystemContract};
use devnet_core::traits::{StateChanger, StateExtractor};

const ERC20_CLASS_HASH: &str = "0x6a22bf63c7bc07effa39a25dfbd21523d211db0100a0afd054d172b81840eaf";
const ETH_ERC20_ADDRESS: &str = "0x49d36570d4e46f48e99674bd3fcc84644ddd6b96f7c741b1562b82f9e004dc7";
const CAIRO_0_CLASS: &str =
    r#"{"abi":[],"entry_points_by_type":{"EXTERNAL":[],"L1_HANDLER":[],"CONSTRUCTOR":[]},"program":{"builtins":[],"data":[]}}"#;

fn class(n: u128) -> ContractClass {
    ContractClass::from_structured(StructuredClass::new(Felt::from_u128(n)))
}

fn address(n: u128) -> ContractAddress {
    ContractAddress::new(Felt::from_u128(n)).unwrap()
}

#[test]
fn declare_is_idempotent() {
    let hash = Felt::from_u128(1);
    let mut state = StarknetState::default();
    assert!(!state.is_contract_declared(&hash));
    assert!(state.declare_contract_class(hash, class(1)).is_ok());
    assert!(state.is_contract_declared(&hash));
    assert!(state.declare_contract_class(hash, class(1)).is_ok());
    assert!(state.declare_contract_class(hash, class(2)).is_ok());
    assert!(state.is_contract_declared(&hash));
    assert!(!state.is_contract_declared(&Felt::from_u128(2)));
}

#[test]
fn deploy_needs_a_declared_class() {
    let hash = Felt::from_u128(1);
    let mut state = StarknetState::new();
    assert_eq!(state.deploy_contract(address(10), hash), Err(Error::ClassNotDeclared));
    assert_eq!(state.get_class_hash_at(&address(10)), None);
    state.declare_contract_class(hash, class(1)).unwrap();
    assert_eq!(state.deploy_contract(address(10), hash), Ok(()));
    assert_eq!(state.get_class_hash_at(&address(10)), Some(hash));
}

#[test]
fn redeploy_binds_the_address_anew() {
    let first = Felt::from_u128(1);
    let second = Felt::from_u128(2);
    let mut state = StarknetState::new();
    state.declare_contract_class(first, class(1)).unwrap();
    state.declare_contract_class(second, class(2)).unwrap();
    state.deploy_contract(address(10), first).unwrap();
    state.deploy_contract(address(11), first).unwrap();
    state.deploy_contract(address(10), second).unwrap();
    assert_eq!(state.get_class_hash_at(&address(10)), Some(second));
    assert_eq!(state.get_class_hash_at(&address(11)), Some(first));
    assert_eq!(state.get_class_hash_at(&address(12)), None);
}

#[test]
fn system_account_deployed_successfully() {
    let mut state = StarknetState::default();
    let sys_contract =
        SystemContract::new_cairo1(ERC20_CLASS_HASH, ETH_ERC20_ADDRESS, StructuredClass::new(Felt::from_u128(7)))
            .unwrap();

    assert!(sys_contract.deploy(&mut state).is_ok());
    let class_hash = Felt::from_prefixed_hex_str(ERC20_CLASS_HASH).unwrap();
    assert!(state.is_contract_declared(&class_hash));
    assert_eq!(state.get_class_hash_at(&sys_contract.get_address()), Some(class_hash));
    assert_eq!(sys_contract.get_address().to_felt().to_prefixed_hex_str(), ETH_ERC20_ADDRESS);
}

#[test]
fn system_contract_of_a_cairo_0_class_deploys_twice() {
    let mut state = StarknetState::default();
    let sys_contract = SystemContract::new_cairo0("0x1", "0x2", CAIRO_0_CLASS).unwrap();
    assert!(sys_contract.deploy(&mut state).is_ok());
    assert!(sys_contract.deploy(&mut state).is_ok());
    assert_eq!(state.get_class_hash_at(&address(2)), Some(Felt::from_u128(1)));
}

#[test]
fn system_contract_rejects_bad_parts() {
    assert_eq!(SystemContract::new_cairo0("1", "0x2", CAIRO_0_CLASS).err(), Some(Error::InvalidFeltEncoding));
    assert_eq!(SystemContract::new_cairo0("0x1", "0xzz", CAIRO_0_CLASS).err(), Some(Error::InvalidFeltEncoding));
    let out_of_range = "0x800000000000000000000000000000000000000000000000000000000000000";
    assert_eq!(SystemContract::new_cairo0("0x1", out_of_range, CAIRO_0_CLASS).err(), Some(Error::InvalidFeltEncoding));
    assert!(matches!(SystemContract::new_cairo0("0x1", "0x2", "{").err(), Some(Error::MalformedClass { .. })));
}

#[test]
fn system_contract_has_no_balance_of_its_own() {
    let mut state = StarknetState::default();
    let sys_contract = SystemContract::new_cairo1("0x1", "0x2", StructuredClass::new(Felt::from_u128(7))).unwrap();
    assert_eq!(sys_contract.set_initial_balance(&mut state), Ok(()));
    assert_eq!(sys_contract.get_balance(&mut state, FeeToken::ETH), Ok(Felt::zero()));
    assert_eq!(sys_contract.get_balance(&mut state, FeeToken::STRK), Ok(Felt::zero()));
    assert!(!state.is_contract_declared(&Felt::from_u128(1)));
}

#[test]
fn addresses_stop_below_two_to_the_251() {
    let last = Felt::from_prefixed_hex_str("0x7ffffffffffffffffffffffffffffffffffffffffffffffffffffffffffffff").unwrap();
    assert!(ContractAddress::new(last).is_ok());
    let bound = Felt::from_prefixed_hex_str("0x800000000000000000000000000000000000000000000000000000000000000").unwrap();
    assert_eq!(ContractAddress::new(bound).err(), Some(Error::InvalidFeltEncoding));
}
