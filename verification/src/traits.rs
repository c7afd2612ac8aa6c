//! What the kinds of things in the ledger have in common.
use vstd::prelude::*;
use crate::contract_class::{ClassModel, ContractClass};
use crate::error::Error;
use crate::felt::{ClassHash, Felt};
use crate::patricia_key::ContractAddress;

verus! {

/// Why no hash can be taken of a thing.
pub enum HashFault {
    /// A required part is missing or has the wrong shape.
    Malformed,
    /// A string that should spell a field element does not.
    InvalidFelt,
}

/// Whether an error is the one that stands for a fault.
pub open spec fn error_is(e: Error, fault: HashFault) -> bool {
    match fault {
        HashFault::Malformed => e is MalformedClass,
        HashFault::InvalidFelt => e == Error::InvalidFeltEncoding,
    }
}

/// Things with a hash that depends on their content alone.
pub trait HashProducer {
    /// The hash of the thing, or the fault that leaves it without one.
    spec fn hash_of(&self) -> Result<nat, HashFault>;

    /// Computes the hash of the thing.
    fn generate_hash(&self) -> (r: Result<Felt, Error>)
        ensures
            match self.hash_of() {
                Ok(h) => r matches Ok(f) && f@ == h,
                Err(fault) => r matches Err(e) && error_is(e, fault),
            },
    ;
}

/// The declared classes after `class` is declared under `class_hash`: as
/// before where a class is declared there already, with the new class otherwise.
pub open spec fn declared_after(classes: Map<nat, ClassModel>, class_hash: nat, class: ClassModel) -> Map<
    nat,
    ClassModel,
> {
    if classes.contains_key(class_hash) {
        classes
    } else {
        classes.insert(class_hash, class)
    }
}

/// To declare a class twice is to declare it once: the second time leaves
/// the declared classes, and so what counts as declared, as the first left them.
pub proof fn lemma_declare_idempotent(classes: Map<nat, ClassModel>, class_hash: nat, class: ClassModel)
    ensures
        declared_after(declared_after(classes, class_hash, class), class_hash, class) == declared_after(
            classes,
            class_hash,
            class,
        ),
{
}

/// Once a class is declared under a hash, a class is declared there: a
/// contract can then be deployed against that hash.
pub proof fn lemma_declared_class_can_be_deployed(
    classes: Map<nat, ClassModel>,
    class_hash: nat,
    class: ClassModel,
)
    ensures
        declared_after(classes, class_hash, class).contains_key(class_hash),
{
}

/// What can be read of the ledger's registry.
pub trait StateExtractor {
    /// The declared classes by their hashes.
    spec fn declared_classes(&self) -> Map<nat, ClassModel>;

    /// The class hashes of the deployed contracts by their addresses.
    spec fn deployed_contracts(&self) -> Map<nat, nat>;

    /// Whether a class was declared under `class_hash`.
    fn is_contract_declared(&self, class_hash: &ClassHash) -> (r: bool)
        ensures
            r == self.declared_classes().contains_key(class_hash@),
    ;
}

/// How the ledger's registry changes.
pub trait StateChanger: StateExtractor {
    /// Declares `contract_class` under `class_hash`, unless a class is
    /// declared there already: then nothing changes. Never fails.
    fn declare_contract_class(&mut self, class_hash: ClassHash, contract_class: ContractClass) -> (r:
        Result<(), Error>)
        ensures
            r is Ok,
            final(self).declared_classes() == declared_after(
                old(self).declared_classes(),
                class_hash@,
                contract_class@,
            ),
            final(self).deployed_contracts() == old(self).deployed_contracts(),
    ;

    /// Binds `address` to `class_hash`, whatever it was bound to, where a
    /// class is declared under that hash; fails and changes nothing otherwise.
    fn deploy_contract(&mut self, address: ContractAddress, class_hash: ClassHash) -> (r: Result<
        (),
        Error,
    >)
        ensures
            final(self).declared_classes() == old(self).declared_classes(),
            old(self).declared_classes().contains_key(class_hash@) ==> (r is Ok
                && final(self).deployed_contracts() == old(self).deployed_contracts().insert(
                address@,
                class_hash@,
            )),
            !old(self).declared_classes().contains_key(class_hash@) ==> (r == Err::<(), Error>(
                Error::ClassNotDeclared,
            ) && final(self).deployed_contracts() == old(self).deployed_contracts()),
    ;
}

} // verus!
