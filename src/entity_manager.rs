use std::collections::VecDeque;
use vstd::prelude::*;

use crate::config::{EcsError, EntityType, MAX_ENTITIES};
use crate::signature::Signature;

verus! {

/// Outcome of a change to the entity pool.
#[derive(Debug, Clone, Copy, PartialEq, Eq, Structural)]
pub enum EntityManagerResponse {
    CantAddMoreEntities,
    AddedEntities,
    CantRemoveEntity,
    RemovedEntity,
}

/// The pool of entity handles and the signature of each live entity.
pub struct EntityManager {
    entities: VecDeque<EntityType>,
    signatures: Vec<Option<Signature>>,
    capacity: EntityType,
}

impl EntityManager {
    /// Size of the pool.
    pub closed spec fn capacity(&self) -> nat {
        self.capacity as nat
    }

    /// Handles not in use, in the order they will be handed out.
    pub closed spec fn free(&self) -> Seq<EntityType> {
        self.entities@
    }

    /// Whether `e` is currently live.
    pub closed spec fn is_live(&self, e: EntityType) -> bool {
        e < self.capacity && self.signatures@[e as int] is Some
    }

    /// The component types that live entity `e` holds.
    pub closed spec fn signature_of(&self, e: EntityType) -> Set<nat> {
        if self.is_live(e) {
            self.signatures@[e as int]->Some_0@
        } else {
            Set::empty()
        }
    }

    /// The two registries agree on the pool and on every entity.
    pub open spec fn same_as(&self, other: &Self) -> bool {
        &&& self.capacity() == other.capacity()
        &&& self.free() == other.free()
        &&& forall|e: EntityType| #[trigger] self.is_live(e) == other.is_live(e)
        &&& forall|e: EntityType| #[trigger] self.signature_of(e) == other.signature_of(e)
    }

    /// Every handle below the capacity is either live or free, never both;
    /// no handle is free twice.
    pub closed spec fn wf(&self) -> bool {
        &&& self.signatures@.len() == self.capacity
        &&& self.entities@.no_duplicates()
        &&& forall|j: int|
            0 <= j < self.entities@.len() ==> #[trigger] self.entities@[j] < self.capacity
        &&& forall|e: EntityType|
            e < self.capacity ==> (#[trigger] self.signatures@[e as int] is None
                <==> self.entities@.contains(e))
        &&& forall|e: EntityType|
            #![trigger self.signatures@[e as int]]
            e < self.capacity && self.signatures@[e as int] is Some
                ==> self.signatures@[e as int]->Some_0.wf()
    }

    /// Live and free handles lie in the pool; a handle that is not live has
    /// an empty signature.
    pub proof fn lemma_live_in_pool(&self, e: EntityType)
        requires
            self.wf(),
        ensures
            forall|j: int| 0 <= j < self.free().len() ==> #[trigger] self.free()[j] < self.capacity(),
            self.is_live(e) ==> e < self.capacity(),
            !self.is_live(e) ==> self.signature_of(e) == Set::<nat>::empty(),
    {
    }

    /// A pool of `capacity` handles, all free, handed out from `0` upwards.
    pub fn with_capacity(capacity: EntityType) -> (r: Self)
        ensures
            r.wf(),
            r.capacity() == capacity,
            r.free() == Seq::new(capacity as nat, |i: int| i as EntityType),
            forall|e: EntityType| !r.is_live(e),
    {
        let mut entities: VecDeque<EntityType> = VecDeque::new();
        let mut signatures: Vec<Option<Signature>> = Vec::new();
        let mut k: EntityType = 0;
        while k < capacity
            invariant
                k <= capacity,
                entities@ == Seq::new(k as nat, |i: int| i as EntityType),
                signatures@.len() == k,
                forall|i: int| 0 <= i < k ==> #[trigger] signatures@[i] is None,
            decreases capacity - k,
        {
            entities.push_back(k);
            signatures.push(None);
            k = k + 1;
        }
        let r = EntityManager { entities, signatures, capacity };
        assert forall|e: EntityType| e < capacity implies (#[trigger] r.signatures@[e as int] is None
            <==> r.entities@.contains(e)) by {
            assert(r.entities@[e as int] == e);
        }
        r
    }

    /// A pool of `MAX_ENTITIES` handles.
    pub fn create() -> (r: Self)
        ensures
            r.wf(),
            r.capacity() == MAX_ENTITIES,
            r.free() == Seq::new(MAX_ENTITIES as nat, |i: int| i as EntityType),
            forall|e: EntityType| !r.is_live(e),
    {
        Self::with_capacity(MAX_ENTITIES)
    }

    /// Size of the pool.
    pub fn pool_size(&self) -> (r: EntityType)
        ensures
            r == self.capacity(),
    {
        self.capacity
    }

    /// Hands out the handle that has been free the longest, with an empty
    /// signature.
    pub fn create_entity(&mut self) -> (r: Result<EntityType, EcsError>)
        requires
            old(self).wf(),
        ensures
            final(self).wf(),
            final(self).capacity() == old(self).capacity(),
            r is Err <==> old(self).free().len() == 0,
            r matches Ok(id) ==> id == old(self).free()[0],
            r matches Ok(id) ==> final(self).free() == old(self).free().drop_first(),
            r matches Ok(id) ==> !old(self).is_live(id) && final(self).is_live(id),
            r matches Ok(id) ==> final(self).signature_of(id) == Set::<nat>::empty(),
            r matches Ok(id) ==> forall|e: EntityType|
                e != id ==> (#[trigger] final(self).is_live(e) == old(self).is_live(e))
                    && final(self).signature_of(e) == old(self).signature_of(e),
            r is Err ==> r == Err::<EntityType, EcsError>(EcsError::CapacityExceeded)
                && final(self).same_as(old(self)),
            r is Err ==> forall|e: EntityType| e < old(self).capacity() ==> #[trigger] old(self).is_live(e),
    {
        match self.entities.pop_front() {
            Some(id) => {
                assert(old(self).entities@.contains(id));
                assert forall|j: int| 0 <= j < self.entities@.len() implies self.entities@[j] != id by {
                    assert(old(self).entities@[j + 1] == self.entities@[j]);
                }
                self.signatures.set(id as usize, Some(Signature::new()));
                assert forall|e: EntityType| e < self.capacity implies (
                #[trigger] self.signatures@[e as int] is None <==> self.entities@.contains(e)) by {
                    if old(self).entities@.contains(e) && e != id {
                        let j = choose|j: int| 0 <= j < old(self).entities@.len() && old(self).entities@[j] == e;
                        assert(self.entities@[j - 1] == e);
                    }
                    if self.entities@.contains(e) {
                        let j = choose|j: int| 0 <= j < self.entities@.len() && self.entities@[j] == e;
                        assert(old(self).entities@[j + 1] == e);
                    }
                }
                assert forall|e: EntityType| e != id implies (#[trigger] self.is_live(e) == old(self).is_live(e))
                    && self.signature_of(e) == old(self).signature_of(e) by {
                    if e < self.capacity {
                        assert(self.signatures@[e as int] == old(self).signatures@[e as int]);
                    }
                }
                Ok(id)
            },
            None => {
                assert forall|e: EntityType| e < old(self).capacity() implies #[trigger] old(self).is_live(e) by {
                    if old(self).signatures@[e as int] is None {
                        assert(old(self).entities@.contains(e));
                    }
                }
                Err(EcsError::CapacityExceeded)
            },
        }
    }

    /// Retires live entity `e`: its signature is dropped and its handle
    /// goes to the back of the free pool.
    pub fn destroy_entity(&mut self, entity: EntityType) -> (r: Result<(), EcsError>)
        requires
            old(self).wf(),
        ensures
            final(self).wf(),
            final(self).capacity() == old(self).capacity(),
            r is Ok <==> old(self).is_live(entity),
            r is Ok ==> {
                &&& final(self).free() == old(self).free().push(entity)
                &&& !final(self).is_live(entity)
                &&& forall|e: EntityType|
                    e != entity ==> (#[trigger] final(self).is_live(e) == old(self).is_live(e))
                        && final(self).signature_of(e) == old(self).signature_of(e)
            },
            r is Err ==> r == Err::<(), EcsError>(EcsError::UnknownEntity) && *final(self) == *old(self),
    {
        if entity >= self.capacity {
            return Err(EcsError::UnknownEntity);
        }
        if self.signatures[entity as usize].is_none() {
            return Err(EcsError::UnknownEntity);
        }
        self.signatures.set(entity as usize, None);
        self.entities.push_back(entity);
        assert forall|e: EntityType| e < self.capacity implies (
        #[trigger] self.signatures@[e as int] is None <==> self.entities@.contains(e)) by {
            if e == entity {
                assert(self.entities@[self.entities@.len() - 1] == e);
            } else {
                if self.entities@.contains(e) {
                    let j = choose|j: int| 0 <= j < self.entities@.len() && self.entities@[j] == e;
                    assert(old(self).entities@[j] == e);
                }
                if old(self).entities@.contains(e) {
                    let j = choose|j: int| 0 <= j < old(self).entities@.len() && old(self).entities@[j] == e;
                    assert(self.entities@[j] == e);
                }
            }
        }
        Ok(())
    }

    /// Replaces the signature of live entity `e`.
    pub fn set_signature(&mut self, entity: EntityType, signature: Signature) -> (r: Result<
        (),
        EcsError,
    >)
        requires
            old(self).wf(),
            signature.wf(),
        ensures
            final(self).wf(),
            final(self).capacity() == old(self).capacity(),
            final(self).free() == old(self).free(),
            r is Ok <==> old(self).is_live(entity),
            forall|e: EntityType| #[trigger] final(self).is_live(e) == old(self).is_live(e),
            r is Ok ==> final(self).signature_of(entity) == signature@,
            forall|e: EntityType|
                e != entity ==> #[trigger] final(self).signature_of(e) == old(self).signature_of(e),
            r is Err ==> r == Err::<(), EcsError>(EcsError::UnknownEntity) && *final(self) == *old(self),
    {
        if entity >= self.capacity {
            return Err(EcsError::UnknownEntity);
        }
        if self.signatures[entity as usize].is_none() {
            return Err(EcsError::UnknownEntity);
        }
        self.signatures.set(entity as usize, Some(signature));
        Ok(())
    }

    /// Empties the signature of live entity `e`.
    pub fn remove_signature(&mut self, entity: EntityType) -> (r: Result<(), EcsError>)
        requires
            old(self).wf(),
        ensures
            final(self).wf(),
            final(self).capacity() == old(self).capacity(),
            final(self).free() == old(self).free(),
            r is Ok <==> old(self).is_live(entity),
            forall|e: EntityType| #[trigger] final(self).is_live(e) == old(self).is_live(e),
            r is Ok ==> final(self).signature_of(entity) == Set::<nat>::empty(),
            forall|e: EntityType|
                e != entity ==> #[trigger] final(self).signature_of(e) == old(self).signature_of(e),
            r is Err ==> r == Err::<(), EcsError>(EcsError::UnknownEntity) && *final(self) == *old(self),
    {
        self.set_signature(entity, Signature::new())
    }

    /// The signature of live entity `e`.
    pub fn get_signature(&self, entity: EntityType) -> (r: Result<&Signature, EcsError>)
        requires
            self.wf(),
        ensures
            match r {
                Ok(s) => self.is_live(entity) && s@ == self.signature_of(entity) && s.wf(),
                Err(err) => !self.is_live(entity) && err == EcsError::UnknownEntity,
            },
    {
        if entity >= self.capacity {
            return Err(EcsError::UnknownEntity);
        }
        match &self.signatures[entity as usize] {
            Some(s) => Ok(s),
            None => Err(EcsError::UnknownEntity),
        }
    }
}

} // verus!
