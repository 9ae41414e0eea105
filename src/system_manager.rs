use std::any::TypeId;
use vstd::prelude::*;

use crate::config::{EcsError, EntityType};
use crate::entity_manager::EntityManager;
use crate::signature::Signature;
use crate::system::System;
use crate::type_key::find_key;

verus! {

/// The registered systems: for each, the signature it requires, once set,
/// and the entities that match it.
pub struct SystemManager {
    system_types: Vec<TypeId>,
    signatures: Vec<Option<Signature>>,
    systems: Vec<System>,
}

/// Whether an entity with signature `held` belongs to a system that
/// requires `required`.
pub open spec fn covers(required: Option<Set<nat>>, held: Set<nat>) -> bool {
    match required {
        Some(r) => r.subset_of(held),
        None => false,
    }
}

impl SystemManager {
    /// The registered keys, by system index.
    pub closed spec fn keys(&self) -> Seq<TypeId> {
        self.system_types@
    }

    /// The index of the system registered under `key`.
    pub open spec fn index_of(&self, key: TypeId) -> int {
        self.keys().index_of(key)
    }

    /// The entities of system `s`.
    pub closed spec fn members(&self, s: int) -> Set<EntityType> {
        self.systems@[s]@
    }

    /// The signature that system `s` requires, once set.
    pub closed spec fn required(&self, s: int) -> Option<Set<nat>> {
        match self.signatures@[s] {
            Some(sig) => Some(sig@),
            None => None,
        }
    }

    /// One signature slot and one entity set per key; keys are distinct.
    pub closed spec fn wf(&self) -> bool {
        &&& self.system_types@.len() == self.signatures@.len()
        &&& self.system_types@.len() == self.systems@.len()
        &&& self.system_types@.no_duplicates()
    }

    /// The position that `find_key` reports is the index of the key.
    proof fn lemma_index_of(&self, key: TypeId, i: int)
        requires
            self.wf(),
            0 <= i < self.keys().len(),
            self.keys()[i] == key,
        ensures
            self.index_of(key) == i,
    {
        assert(self.keys().contains(key));
    }

    /// No system is registered.
    pub fn new() -> (r: Self)
        ensures
            r.wf(),
            r.keys() == Seq::<TypeId>::empty(),
    {
        SystemManager { system_types: Vec::new(), signatures: Vec::new(), systems: Vec::new() }
    }

    /// Registers a system under `key`, with no signature and no entities.
    pub fn register_system(&mut self, key: TypeId) -> (r: Result<TypeId, EcsError>)
        requires
            old(self).wf(),
        ensures
            final(self).wf(),
            old(self).keys().contains(key) <==> r is Err,
            r is Err ==> r == Err::<TypeId, EcsError>(EcsError::DuplicateRegistration) && final(self).keys() == old(self).keys(),
            r is Ok ==> r == Ok::<TypeId, EcsError>(key) && final(self).keys() == old(self).keys().push(key)
                && final(self).members(old(self).keys().len() as int) == Set::<EntityType>::empty()
                && final(self).required(old(self).keys().len() as int) is None,
            forall|s: int|
                0 <= s < old(self).keys().len() ==> #[trigger] final(self).members(s) == old(self).members(s),
            forall|s: int|
                0 <= s < old(self).keys().len() ==> #[trigger] final(self).required(s) == old(self).required(s),
    {
        if find_key(&self.system_types, &key).is_some() {
            return Err(EcsError::DuplicateRegistration);
        }
        let ghost n = self.system_types@.len();
        self.system_types.push(key);
        self.signatures.push(None);
        self.systems.push(System::new());
        assert forall|i: int, j: int|
            0 <= i < self.system_types@.len() && 0 <= j < self.system_types@.len() && i != j
            implies self.system_types@[i] != self.system_types@[j] by {
            if i == n || j == n {
                assert(old(self).system_types@.len() == n);
            }
        }
        Ok(key)
    }

    /// Registers a system under `key`; the same as `register_system`.
    pub fn register_system_func(&mut self, key: TypeId) -> (r: Result<TypeId, EcsError>)
        requires
            old(self).wf(),
        ensures
            final(self).wf(),
            old(self).keys().contains(key) <==> r is Err,
            r is Err ==> r == Err::<TypeId, EcsError>(EcsError::DuplicateRegistration) && final(self).keys() == old(self).keys(),
            r is Ok ==> r == Ok::<TypeId, EcsError>(key) && final(self).keys() == old(self).keys().push(key)
                && final(self).members(old(self).keys().len() as int) == Set::<EntityType>::empty()
                && final(self).required(old(self).keys().len() as int) is None,
            forall|s: int|
                0 <= s < old(self).keys().len() ==> #[trigger] final(self).members(s) == old(self).members(s),
            forall|s: int|
                0 <= s < old(self).keys().len() ==> #[trigger] final(self).required(s) == old(self).required(s),
    {
        self.register_system(key)
    }

    /// The system registered under `key`.
    pub fn get_system(&self, key: TypeId) -> (r: Result<&System, EcsError>)
        requires
            self.wf(),
        ensures
            match r {
                Ok(sys) => self.keys().contains(key) && sys@ == self.members(self.index_of(key)),
                Err(e) => !self.keys().contains(key) && e == EcsError::UnregisteredType,
            },
    {
        match find_key(&self.system_types, &key) {
            Some(i) => {
                proof {
                    self.lemma_index_of(key, i as int);
                }
                Ok(&self.systems[i])
            },
            None => Err(EcsError::UnregisteredType),
        }
    }

    /// Installs the signature that the system under `key` requires.
    pub fn set_signatures(&mut self, key: TypeId, signature: Signature) -> (r: Result<(), EcsError>)
        requires
            old(self).wf(),
        ensures
            final(self).wf(),
            final(self).keys() == old(self).keys(),
            r is Ok <==> old(self).keys().contains(key),
            r is Err ==> r == Err::<(), EcsError>(EcsError::UnregisteredType),
            r is Ok ==> final(self).required(old(self).index_of(key)) == Some(signature@),
            r is Err ==> forall|s: int|
                0 <= s < old(self).keys().len() ==> #[trigger] final(self).required(s) == old(self).required(s),
            forall|s: int|
                0 <= s < old(self).keys().len() ==> #[trigger] final(self).members(s) == old(self).members(s),
            forall|s: int|
                0 <= s < old(self).keys().len() && s != old(self).index_of(key) ==> #[trigger] final(self).required(s) == old(self).required(s),
    {
        match find_key(&self.system_types, &key) {
            Some(i) => {
                proof {
                    self.lemma_index_of(key, i as int);
                }
                self.signatures.set(i, Some(signature));
                Ok(())
            },
            None => Err(EcsError::UnregisteredType),
        }
    }

    /// Takes `entity` out of every system.
    pub fn entity_destroyed(&mut self, entity: EntityType)
        requires
            old(self).wf(),
        ensures
            final(self).wf(),
            final(self).keys() == old(self).keys(),
            forall|s: int|
                0 <= s < old(self).keys().len() ==> #[trigger] final(self).members(s) == old(self).members(s).remove(entity),
            forall|s: int|
                0 <= s < old(self).keys().len() ==> #[trigger] final(self).required(s) == old(self).required(s),
    {
        let n = self.systems.len();
        let mut i: usize = 0;
        while i < n
            invariant
                n == self.systems@.len(),
                i <= n,
                self.wf(),
                self.keys() == old(self).keys(),
                self.signatures@ == old(self).signatures@,
                forall|s: int| 0 <= s < i ==> #[trigger] self.members(s) == old(self).members(s).remove(entity),
                forall|s: int| i <= s < n ==> #[trigger] self.members(s) == old(self).members(s),
            decreases n - i,
        {
            let ghost head: Self = *self;
            self.systems[i].remove(entity);
            assert forall|s: int| 0 <= s < i + 1 implies #[trigger] self.members(s) == old(self).members(s).remove(entity) by {
                assert(head.members(s) == head.systems@[s]@);
            }
            assert forall|s: int| i + 1 <= s < n implies #[trigger] self.members(s) == old(self).members(s) by {
                assert(head.members(s) == head.systems@[s]@);
            }
            i = i + 1;
        }
    }

    /// Brings `entity` into each system whose signature `signature` covers,
    /// and takes it out of every other system that has a signature.
    pub fn entity_signature_changed(&mut self, entity: EntityType, signature: &Signature)
        requires
            old(self).wf(),
        ensures
            final(self).wf(),
            final(self).keys() == old(self).keys(),
            forall|s: int|
                0 <= s < old(self).keys().len() ==> #[trigger] final(self).members(s) == (
                if old(self).required(s) is None {
                    old(self).members(s)
                } else if covers(old(self).required(s), signature@) {
                    old(self).members(s).insert(entity)
                } else {
                    old(self).members(s).remove(entity)
                }),
            forall|s: int|
                0 <= s < old(self).keys().len() ==> #[trigger] final(self).required(s) == old(self).required(s),
    {
        let n = self.systems.len();
        let mut i: usize = 0;
        while i < n
            invariant
                n == self.systems@.len(),
                i <= n,
                self.wf(),
                self.keys() == old(self).keys(),
                self.signatures@ == old(self).signatures@,
                forall|s: int| 0 <= s < i ==> #[trigger] self.members(s) == (
                if old(self).required(s) is None {
                    old(self).members(s)
                } else if covers(old(self).required(s), signature@) {
                    old(self).members(s).insert(entity)
                } else {
                    old(self).members(s).remove(entity)
                }),
                forall|s: int| i <= s < n ==> #[trigger] self.members(s) == old(self).members(s),
            decreases n - i,
        {
            let ghost head: Self = *self;
            match &self.signatures[i] {
                Some(required) => {
                    if required.is_subset(signature) {
                        self.systems[i].insert(entity);
                    } else {
                        self.systems[i].remove(entity);
                    }
                },
                None => {},
            }
            assert forall|s: int| 0 <= s < i + 1 implies #[trigger] self.members(s) == (
                if old(self).required(s) is None {
                    old(self).members(s)
                } else if covers(old(self).required(s), signature@) {
                    old(self).members(s).insert(entity)
                } else {
                    old(self).members(s).remove(entity)
                }) by {
                assert(head.members(s) == head.systems@[s]@);
            }
            assert forall|s: int| i + 1 <= s < n implies #[trigger] self.members(s) == old(self).members(s) by {
                assert(head.members(s) == head.systems@[s]@);
            }
            i = i + 1;
        }
    }

    /// Recomputes the entities of the system under `key` from every live
    /// entity's signature.
    pub fn rescan(&mut self, key: TypeId, entities: &EntityManager) -> (r: Result<(), EcsError>)
        requires
            old(self).wf(),
            entities.wf(),
        ensures
            final(self).wf(),
            final(self).keys() == old(self).keys(),
            r is Ok <==> old(self).keys().contains(key),
            r is Err ==> r == Err::<(), EcsError>(EcsError::UnregisteredType),
            r is Ok ==> final(self).members(old(self).index_of(key)) == Set::new(
                |e: EntityType|
                    entities.is_live(e) && covers(
                        old(self).required(old(self).index_of(key)),
                        entities.signature_of(e),
                    ),
            ),
            forall|s: int|
                0 <= s < old(self).keys().len() ==> #[trigger] final(self).required(s) == old(self).required(s),
            forall|s: int|
                0 <= s < old(self).keys().len() && (r is Err || s != old(self).index_of(key)) ==> #[trigger] final(self).members(s) == old(self).members(s),
    {
        let i = match find_key(&self.system_types, &key) {
            Some(i) => i,
            None => return Err(EcsError::UnregisteredType),
        };
        proof {
            self.lemma_index_of(key, i as int);
        }
        let ghost target = Set::new(
            |e: EntityType| entities.is_live(e) && covers(self.required(i as int), entities.signature_of(e)),
        );
        self.systems[i].clear();
        let cap = entities.pool_size();
        let mut e: EntityType = 0;
        while e < cap
            invariant
                self.wf(),
                self.keys() == old(self).keys(),
                self.signatures@ == old(self).signatures@,
                i < self.systems@.len(),
                cap == entities.capacity(),
                entities.wf(),
                e <= cap,
                target == Set::new(
                    |x: EntityType| entities.is_live(x) && covers(self.required(i as int), entities.signature_of(x)),
                ),
                self.members(i as int) == target.filter(|x: EntityType| x < e),
                forall|s: int| 0 <= s < self.systems@.len() && s != i ==> #[trigger] self.members(s) == old(self).members(s),
            decreases cap - e,
        {
            let ghost head: Self = *self;
            let ghost before = self.members(i as int);
            match entities.get_signature(e) {
                Ok(held) => {
                    match &self.signatures[i] {
                        Some(required) => {
                            if required.is_subset(held) {
                                self.systems[i].insert(e);
                            }
                        },
                        None => {},
                    }
                },
                Err(_) => {},
            }
            assert(self.members(i as int) =~= target.filter(|x: EntityType| x < e + 1));
            assert forall|s: int| 0 <= s < self.systems@.len() && s != i implies #[trigger] self.members(s) == old(self).members(s) by {
                assert(head.members(s) == head.systems@[s]@);
            }
            e = e + 1;
        }
        assert(self.members(i as int) =~= target) by {
            assert forall|x: EntityType| target.contains(x) implies x < cap by {
                entities.lemma_live_in_pool(x);
            }
        }
        Ok(())
    }
}

} // verus!
