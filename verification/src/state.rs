//! The ledger's registry of classes and contracts: a class is declared once
//! under its hash, and addresses are bound to declared hashes.
use vstd::prelude::*;
use crate::contract_class::{ClassModel, ContractClass};
use crate::error::Error;
use crate::felt::ClassHash;
use crate::patricia_key::ContractAddress;
use crate::traits::{StateChanger, StateExtractor};

verus! {

/// A declared class under its hash.
#[derive(Debug)]
pub struct DeclaredClass {
    pub class_hash: ClassHash,
    pub class: ContractClass,
}

/// A contract's address with the hash of its class.
#[derive(Debug, Clone, Copy)]
pub struct Deployment {
    pub address: ContractAddress,
    pub class_hash: ClassHash,
}

/// The registry. Its bindings are kept in lists that are searched from the
/// back, since a field element is wider than any integer for which the maps
/// of the standard library are specified. Of two entries under one key the
/// later one counts.
#[derive(Debug)]
pub struct StarknetState {
    classes: Vec<DeclaredClass>,
    deployments: Vec<Deployment>,
}

/// The map that a list of bindings stands for: each key with the value of
/// its last binding.
pub open spec fn bindings_map<V>(bindings: Seq<(nat, V)>) -> Map<nat, V>
    decreases bindings.len(),
{
    if bindings.len() == 0 {
        Map::empty()
    } else {
        bindings_map(bindings.drop_last()).insert(bindings.last().0, bindings.last().1)
    }
}

/// The declared classes as bindings of hash to class.
pub open spec fn class_bindings(classes: Seq<DeclaredClass>) -> Seq<(nat, ClassModel)> {
    Seq::new(classes.len(), |i: int| (classes[i].class_hash@, classes[i].class@))
}

/// The deployments as bindings of address to class hash.
pub open spec fn deployment_bindings(deployments: Seq<Deployment>) -> Seq<(nat, nat)> {
    Seq::new(deployments.len(), |i: int| (deployments[i].address@, deployments[i].class_hash@))
}

/// A key that no binding from place `from` on has is bound as it is in the
/// bindings before that place.
proof fn lemma_bindings_tail<V>(bindings: Seq<(nat, V)>, from: int, key: nat)
    requires
        0 <= from <= bindings.len(),
        forall|j: int| from <= j < bindings.len() ==> bindings[j].0 != key,
    ensures
        bindings_map(bindings).contains_key(key) == bindings_map(bindings.take(from)).contains_key(key),
        bindings_map(bindings).contains_key(key) ==> bindings_map(bindings)[key] == bindings_map(
            bindings.take(from),
        )[key],
    decreases bindings.len(),
{
    if from < bindings.len() {
        lemma_bindings_tail(bindings.drop_last(), from, key);
        assert(bindings.drop_last().take(from) =~= bindings.take(from));
    } else {
        assert(bindings.take(from) =~= bindings);
    }
}

/// To bind anew the last binding of a key is to insert into the map.
proof fn lemma_bindings_update<V>(bindings: Seq<(nat, V)>, at: int, value: V)
    requires
        0 <= at < bindings.len(),
        forall|j: int| at < j < bindings.len() ==> bindings[j].0 != bindings[at].0,
    ensures
        bindings_map(bindings.update(at, (bindings[at].0, value))) == bindings_map(bindings).insert(
            bindings[at].0,
            value,
        ),
    decreases bindings.len(),
{
    let key = bindings[at].0;
    let updated = bindings.update(at, (key, value));
    if at == bindings.len() - 1 {
        assert(updated.drop_last() =~= bindings.drop_last());
        assert(bindings_map(updated) =~= bindings_map(bindings).insert(key, value));
    } else {
        lemma_bindings_update(bindings.drop_last(), at, value);
        assert(updated.drop_last() =~= bindings.drop_last().update(at, (key, value)));
        assert(updated.last() == bindings.last());
        assert(bindings_map(updated) =~= bindings_map(bindings).insert(key, value));
    }
}

impl StarknetState {
    /// The declared classes by their hashes.
    pub closed spec fn classes(&self) -> Map<nat, ClassModel> {
        bindings_map(class_bindings(self.classes@))
    }

    /// The class hashes of the deployed contracts by their addresses.
    pub closed spec fn contracts(&self) -> Map<nat, nat> {
        bindings_map(deployment_bindings(self.deployments@))
    }

    /// A registry without classes and contracts.
    pub fn new() -> (r: StarknetState)
        ensures
            r.classes() == Map::<nat, ClassModel>::empty(),
            r.contracts() == Map::<nat, nat>::empty(),
    {
        StarknetState { classes: Vec::new(), deployments: Vec::new() }
    }

    /// The place of the last entry under `class_hash`, where there is one.
    fn find_class(&self, class_hash: &ClassHash) -> (r: Option<usize>)
        ensures
            r is Some == self.classes().contains_key(class_hash@),
            r matches Some(i) ==> i < self.classes.len() && self.classes[i as int].class_hash@
                == class_hash@ && self.classes()[class_hash@] == self.classes[i as int].class@,
    {
        let ghost bindings = class_bindings(self.classes@);
        let mut i: usize = self.classes.len();
        proof {
            assert(bindings.take(i as int) =~= bindings);
        }
        while i > 0
            invariant
                i <= self.classes.len(),
                bindings == class_bindings(self.classes@),
                forall|j: int| i <= j < bindings.len() ==> bindings[j].0 != class_hash@,
            decreases i,
        {
            i -= 1;
            if self.classes[i].class_hash == *class_hash {
                proof {
                    lemma_bindings_tail(bindings, i + 1, class_hash@);
                    assert(bindings.take(i + 1).drop_last() =~= bindings.take(i as int));
                    assert(bindings.take(i + 1).last() == bindings[i as int]);
                }
                return Some(i);
            }
        }
        proof {
            lemma_bindings_tail(bindings, 0, class_hash@);
            assert(bindings.take(0) =~= Seq::<(nat, ClassModel)>::empty());
        }
        None
    }

    /// The place of the last entry under `address`, where there is one.
    fn find_deployment(&self, address: &ContractAddress) -> (r: Option<usize>)
        ensures
            r is Some == self.contracts().contains_key(address@),
            r matches Some(i) ==> i < self.deployments.len() && self.deployments[i as int].address@
                == address@ && self.contracts()[address@] == self.deployments[i as int].class_hash@
                && forall|j: int|
                i < j < self.deployments.len() ==> self.deployments[j].address@ != address@,
    {
        let ghost bindings = deployment_bindings(self.deployments@);
        let wanted = address.to_felt();
        let mut i: usize = self.deployments.len();
        while i > 0
            invariant
                i <= self.deployments.len(),
                bindings == deployment_bindings(self.deployments@),
                wanted@ == address@,
                forall|j: int| i <= j < bindings.len() ==> bindings[j].0 != address@,
            decreases i,
        {
            i -= 1;
            if self.deployments[i].address.to_felt() == wanted {
                proof {
                    lemma_bindings_tail(bindings, i + 1, address@);
                    assert(bindings.take(i + 1).drop_last() =~= bindings.take(i as int));
                    assert(bindings.take(i + 1).last() == bindings[i as int]);
                    assert forall|j: int| i < j < self.deployments.len() implies self.deployments[j].address@
                        != address@ by {
                        assert(bindings[j].0 != address@);
                    }
                }
                return Some(i);
            }
        }
        proof {
            lemma_bindings_tail(bindings, 0, address@);
            assert(bindings.take(0) =~= Seq::<(nat, nat)>::empty());
        }
        None
    }

    /// The class hash to which `address` is bound, where it is bound.
    pub fn get_class_hash_at(&self, address: &ContractAddress) -> (r: Option<ClassHash>)
        ensures
            r is Some == self.contracts().contains_key(address@),
            r matches Some(h) ==> self.contracts()[address@] == h@,
    {
        match self.find_deployment(address) {
            Some(i) => Some(self.deployments[i].class_hash),
            None => None,
        }
    }
}

impl Default for StarknetState {
    fn default() -> (r: StarknetState)
        ensures
            r.classes() == Map::<nat, ClassModel>::empty(),
            r.contracts() == Map::<nat, nat>::empty(),
    {
        StarknetState::new()
    }
}

impl StateExtractor for StarknetState {
    open spec fn declared_classes(&self) -> Map<nat, ClassModel> {
        self.classes()
    }

    open spec fn deployed_contracts(&self) -> Map<nat, nat> {
        self.contracts()
    }

    fn is_contract_declared(&self, class_hash: &ClassHash) -> (r: bool) {
        self.find_class(class_hash).is_some()
    }
}

impl StateChanger for StarknetState {
    fn declare_contract_class(&mut self, class_hash: ClassHash, contract_class: ContractClass) -> (r:
        Result<(), Error>) {
        if self.find_class(&class_hash).is_none() {
            let ghost before = class_bindings(self.classes@);
            self.classes.push(DeclaredClass { class_hash, class: contract_class });
            proof {
                let after = class_bindings(self.classes@);
                assert(after.drop_last() =~= before);
                assert(after.last() == (class_hash@, contract_class@));
            }
        }
        Ok(())
    }

    fn deploy_contract(&mut self, address: ContractAddress, class_hash: ClassHash) -> (r: Result<
        (),
        Error,
    >) {
        if self.find_class(&class_hash).is_none() {
            return Err(Error::ClassNotDeclared);
        }
        let ghost before = deployment_bindings(self.deployments@);
        match self.find_deployment(&address) {
            Some(i) => {
                self.deployments.set(i, Deployment { address, class_hash });
                proof {
                    lemma_bindings_update(before, i as int, class_hash@);
                    assert(deployment_bindings(self.deployments@) =~= before.update(
                        i as int,
                        (before[i as int].0, class_hash@),
                    ));
                }
            },
            None => {
                self.deployments.push(Deployment { address, class_hash });
                proof {
                    let after = deployment_bindings(self.deployments@);
                    assert(after.drop_last() =~= before);
                    assert(after.last() == (address@, class_hash@));
                }
            },
        }
        Ok(())
    }
}

} // verus!
