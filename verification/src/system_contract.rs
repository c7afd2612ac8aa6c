//! Contracts that the ledger itself holds from its first block on.
use vstd::prelude::*;
use vstd::string::StringSliceAdditionalSpecFns;
use crate::contract_class::{ClassModel, ContractClass, StructuredClass};
use crate::error::Error;
use crate::felt::{parse_prefixed_hex, Balance, ClassHash, Felt};
use crate::json_text::parsed_json;
use crate::patricia_key::{patricia_key_bound, ContractAddress};
use crate::traits::{declared_after, StateChanger, StateExtractor};

verus! {

/// The tokens in which fees are paid.
#[derive(Debug, Clone, Copy, PartialEq, Eq)]
pub enum FeeToken {
    ETH,
    STRK,
}

/// A built-in contract: a class, its hash and the address at which it lives.
#[derive(Debug)]
pub struct SystemContract {
    class_hash: ClassHash,
    address: ContractAddress,
    contract_class: ContractClass,
}

/// The class hash and the address that two hex texts spell; the error of
/// the first of them that spells none.
pub open spec fn system_contract_header(class_hash: Seq<u8>, address: Seq<u8>) -> Result<(nat, nat), Error> {
    match parse_prefixed_hex(class_hash) {
        None => Err(Error::InvalidFeltEncoding),
        Some(h) => match parse_prefixed_hex(address) {
            None => Err(Error::InvalidFeltEncoding),
            Some(a) => if a < patricia_key_bound() {
                Ok((h, a))
            } else {
                Err(Error::InvalidFeltEncoding)
            },
        },
    }
}

impl SystemContract {
    /// The hash under which the contract's class is declared.
    pub closed spec fn class_hash(&self) -> nat {
        self.class_hash@
    }

    /// The address of the contract.
    pub closed spec fn address(&self) -> nat {
        self.address@
    }

    /// The class of the contract.
    pub closed spec fn contract_class(&self) -> ClassModel {
        self.contract_class@
    }

    /// Reads the class hash and the address of a built-in contract.
    fn header(class_hash: &str, address: &str) -> (r: Result<(ClassHash, ContractAddress), Error>)
        ensures
            match system_contract_header(class_hash.spec_bytes(), address.spec_bytes()) {
                Ok(pair) => r matches Ok(header) && header.0@ == pair.0 && header.1@ == pair.1,
                Err(e) => r == Err::<(ClassHash, ContractAddress), Error>(e),
            },
    {
        let class_hash = match Felt::from_prefixed_hex_str(class_hash) {
            Ok(f) => f,
            Err(e) => {
                return Err(e);
            },
        };
        let address = match Felt::from_prefixed_hex_str(address) {
            Ok(f) => f,
            Err(e) => {
                return Err(e);
            },
        };
        match ContractAddress::new(address) {
            Ok(address) => Ok((class_hash, address)),
            Err(e) => Err(e),
        }
    }

    /// The built-in contract of a class given as JSON text, held as its tree.
    pub fn new_cairo0(class_hash: &str, address: &str, contract_class_json_str: &str) -> (r: Result<
        SystemContract,
        Error,
    >)
        ensures
            match system_contract_header(class_hash.spec_bytes(), address.spec_bytes()) {
                Err(e) => r == Err::<SystemContract, Error>(e),
                Ok(pair) => match parsed_json(contract_class_json_str@) {
                    None => r matches Err(e) && e is MalformedClass,
                    Some(json) => r matches Ok(contract) && contract.class_hash() == pair.0
                        && contract.address() == pair.1 && contract.contract_class() == (ClassModel::RawJson {
                        json,
                    }),
                },
            },
    {
        let (class_hash, address) = match SystemContract::header(class_hash, address) {
            Ok(header) => header,
            Err(e) => {
                return Err(e);
            },
        };
        match ContractClass::from_json_str(contract_class_json_str) {
            Ok(contract_class) => Ok(SystemContract { class_hash, address, contract_class }),
            Err(e) => Err(e),
        }
    }

    /// The built-in contract of a class in its parsed form.
    pub fn new_cairo1(class_hash: &str, address: &str, contract_class: StructuredClass) -> (r: Result<
        SystemContract,
        Error,
    >)
        ensures
            match system_contract_header(class_hash.spec_bytes(), address.spec_bytes()) {
                Err(e) => r == Err::<SystemContract, Error>(e),
                Ok(pair) => r matches Ok(contract) && contract.class_hash() == pair.0 && contract.address()
                    == pair.1 && contract.contract_class() == (ClassModel::Structured {
                    class_hash: contract_class.class_hash()@,
                }),
            },
    {
        let (class_hash, address) = match SystemContract::header(class_hash, address) {
            Ok(header) => header,
            Err(e) => {
                return Err(e);
            },
        };
        Ok(
            SystemContract {
                class_hash,
                address,
                contract_class: ContractClass::from_structured(contract_class),
            },
        )
    }

    /// Declares the contract's class, unless a class is declared under its
    /// hash already, and binds the contract's address to that hash.
    pub fn deploy<S: StateChanger>(&self, state: &mut S) -> (r: Result<(), Error>)
        ensures
            r is Ok,
            final(state).declared_classes() == declared_after(
                old(state).declared_classes(),
                self.class_hash(),
                self.contract_class(),
            ),
            final(state).deployed_contracts() == old(state).deployed_contracts().insert(
                self.address(),
                self.class_hash(),
            ),
    {
        if !state.is_contract_declared(&self.class_hash) {
            match state.declare_contract_class(self.class_hash, self.contract_class.clone()) {
                Ok(_) => {},
                Err(e) => {
                    return Err(e);
                },
            }
        }
        state.deploy_contract(self.address, self.class_hash)
    }

    /// The address of the contract.
    pub fn get_address(&self) -> (r: ContractAddress)
        ensures
            r@ == self.address(),
    {
        self.address
    }

    /// Does nothing: a built-in contract keeps its balances in its own storage.
    pub fn set_initial_balance<S: StateChanger>(&self, state: &mut S) -> (r: Result<(), Error>)
        ensures
            r is Ok,
            *final(state) == *old(state),
    {
        Ok(())
    }

    /// The balance of the contract itself: zero, in either token.
    pub fn get_balance<S: StateExtractor>(&self, state: &mut S, token: FeeToken) -> (r: Result<
        Balance,
        Error,
    >)
        ensures
            r matches Ok(balance) && balance@ == 0,
            *final(state) == *old(state),
    {
        Ok(Felt::default())
    }
}

} // verus!
