use std::any::TypeId;
use vstd::prelude::*;

use crate::component_manager::ComponentManager;
use crate::config::{ComponentType, EcsError, EntityType, MAX_ENTITIES};
use crate::entity_manager::EntityManager;
use crate::signature::Signature;
use crate::system::System;
use crate::system_manager::{covers, SystemManager};

verus! {

/// The entity, component and system registries behind one entry point,
/// kept in step on every change.
///
/// Every store holds values of the one type `C`, and a store is chosen by
/// the key its component type was registered under. Nothing ties a value to
/// the key it is stored under: a caller that wants one kind of value per
/// key must pass matching pairs.
pub struct EcsSingleton<C> {
    component_manager: ComponentManager<C>,
    entity_manager: EntityManager,
    system_manager: SystemManager,
}

impl<C> EcsSingleton<C> {
    /// Size of the entity pool.
    pub closed spec fn capacity(&self) -> nat {
        self.entity_manager.capacity()
    }

    /// Free handles, in the order they will be handed out.
    pub closed spec fn free(&self) -> Seq<EntityType> {
        self.entity_manager.free()
    }

    /// Whether `e` is live.
    pub closed spec fn is_live(&self, e: EntityType) -> bool {
        self.entity_manager.is_live(e)
    }

    /// The component types that `e` holds.
    pub closed spec fn signature_of(&self, e: EntityType) -> Set<nat> {
        self.entity_manager.signature_of(e)
    }

    /// Registered component keys, by type index.
    pub closed spec fn component_types(&self) -> Seq<TypeId> {
        self.component_manager.types()
    }

    /// The type index registered under `key`.
    pub open spec fn type_index(&self, key: TypeId) -> int {
        self.component_types().index_of(key)
    }

    /// Which entity holds which value of component type `t`.
    pub closed spec fn store(&self, t: int) -> Map<EntityType, C> {
        self.component_manager.store(t)
    }

    /// Number of occupied slots in the store of component type `t`.
    pub closed spec fn store_count(&self, t: int) -> nat {
        self.component_manager.store_count(t)
    }

    /// Registered system keys, by system index.
    pub closed spec fn system_types(&self) -> Seq<TypeId> {
        self.system_manager.keys()
    }

    /// The system index registered under `key`.
    pub open spec fn system_index(&self, key: TypeId) -> int {
        self.system_types().index_of(key)
    }

    /// The entities of system `s`.
    pub closed spec fn members(&self, s: int) -> Set<EntityType> {
        self.system_manager.members(s)
    }

    /// The signature that system `s` requires, once set.
    pub closed spec fn required(&self, s: int) -> Option<Set<nat>> {
        self.system_manager.required(s)
    }

    /// The registries agree: only live entities hold components, an
    /// entity's signature lists exactly the types it holds, and each system
    /// holds exactly the live entities whose signature covers its own.
    pub closed spec fn wf(&self) -> bool {
        &&& self.component_manager.wf()
        &&& self.entity_manager.wf()
        &&& self.system_manager.wf()
        &&& forall|t: int, e: EntityType|
            0 <= t < self.component_types().len() && #[trigger] self.store(t).contains_key(e)
                ==> self.is_live(e)
        &&& forall|e: EntityType, i: nat|
            self.is_live(e) ==> (#[trigger] self.signature_of(e).contains(i) <==> i
                < self.component_types().len() && self.store(i as int).contains_key(e))
        &&& forall|s: int, e: EntityType|
            0 <= s < self.system_types().len() ==> (#[trigger] self.members(s).contains(e) <==> (
            self.is_live(e) && covers(self.required(s), self.signature_of(e))))
    }

    /// Overwriting a key that a map holds leaves its domain as it was.
    proof fn lemma_overwrite_keeps_domain()
        ensures
            forall|m: Map<EntityType, C>, k: EntityType, v: C|
                m.contains_key(k) ==> #[trigger] m.insert(k, v).dom() == m.dom(),
    {
        assert forall|m: Map<EntityType, C>, k: EntityType, v: C|
            m.contains_key(k) implies #[trigger] m.insert(k, v).dom() == m.dom() by {
            assert(m.insert(k, v).dom() =~= m.dom());
        }
    }

    /// Changing stored values without changing which entities hold them
    /// keeps the registries in agreement.
    proof fn lemma_values_only()
        ensures
            forall|pre: Self, post: Self|
                #![trigger pre.wf(), post.wf()]
                pre.wf() && post.component_manager.wf() && post.entity_manager == pre.entity_manager
                    && post.system_manager == pre.system_manager && post.component_types()
                    == pre.component_types() && (forall|t: int|
                    0 <= t < pre.component_types().len() ==> #[trigger] post.store(t).dom()
                        == pre.store(t).dom()) ==> post.wf(),
    {
        assert forall|pre: Self, post: Self|
            pre.wf() && post.component_manager.wf() && post.entity_manager == pre.entity_manager
                && post.system_manager == pre.system_manager && post.component_types()
                == pre.component_types() && (forall|t: int|
                0 <= t < pre.component_types().len() ==> #[trigger] post.store(t).dom()
                    == pre.store(t).dom()) implies post.wf() by {
            assert forall|t: int, e: EntityType|
                0 <= t < post.component_types().len() && #[trigger] post.store(t).contains_key(e)
                implies post.is_live(e) by {
                assert(post.store(t).dom().contains(e));
                assert(pre.store(t).contains_key(e));
            }
            assert forall|e: EntityType, i: nat|
                post.is_live(e) implies (#[trigger] post.signature_of(e).contains(i) <==> i
                    < post.component_types().len() && post.store(i as int).contains_key(e)) by {
                assert(pre.signature_of(e).contains(i) <==> i < pre.component_types().len()
                    && pre.store(i as int).contains_key(e));
                if i < post.component_types().len() {
                    assert(post.store(i as int).dom() == pre.store(i as int).dom());
                    assert(post.store(i as int).dom().contains(e) == pre.store(i as int).dom().contains(e));
                }
            }
            assert forall|s: int, e: EntityType|
                0 <= s < post.system_types().len() implies (#[trigger] post.members(s).contains(e) <==> (
                post.is_live(e) && covers(post.required(s), post.signature_of(e)))) by {
                assert(pre.members(s).contains(e) <==> (pre.is_live(e) && covers(pre.required(s), pre.signature_of(e))));
            }
        }
    }

    /// A world whose parts are each well-formed and which agrees with a
    /// well-formed world is well-formed.
    proof fn lemma_wf_when_same(&self, pre: &Self)
        requires
            pre.wf(),
            self.component_manager.wf(),
            self.entity_manager.wf(),
            self.system_manager.wf(),
            self.same_as(pre),
        ensures
            self.wf(),
    {
        assert forall|t: int, x: EntityType|
            0 <= t < self.component_types().len() && #[trigger] self.store(t).contains_key(x)
            implies self.is_live(x) by {
            assert(pre.store(t).contains_key(x));
        }
        assert forall|x: EntityType, i: nat|
            self.is_live(x) implies (#[trigger] self.signature_of(x).contains(i) <==> i
                < self.component_types().len() && self.store(i as int).contains_key(x)) by {
            assert(pre.is_live(x));
            assert(pre.signature_of(x).contains(i) <==> i < pre.component_types().len()
                && pre.store(i as int).contains_key(x));
        }
        assert forall|s: int, x: EntityType|
            0 <= s < self.system_types().len() implies (#[trigger] self.members(s).contains(x) <==> (
            self.is_live(x) && covers(self.required(s), self.signature_of(x)))) by {
            assert(pre.members(s).contains(x) <==> (pre.is_live(x) && covers(pre.required(s), pre.signature_of(x))));
        }
    }

    /// A world that differs from a well-formed one only at entity `x`, and
    /// perhaps by new empty stores, is well-formed once the agreement holds
    /// at `x`.
    proof fn lemma_wf_restored(&self, pre: &Self, x: EntityType)
        requires
            pre.wf(),
            self.component_manager.wf(),
            self.entity_manager.wf(),
            self.system_manager.wf(),
            pre.component_types().len() <= self.component_types().len(),
            forall|t: int|
                pre.component_types().len() <= t < self.component_types().len()
                    ==> #[trigger] self.store(t) == Map::<EntityType, C>::empty(),
            forall|t: int, e: EntityType|
                0 <= t < pre.component_types().len() && e != x ==> (#[trigger] self.store(t).contains_key(e)
                    == pre.store(t).contains_key(e)),
            forall|e: EntityType|
                e != x ==> #[trigger] self.is_live(e) == pre.is_live(e) && self.signature_of(e)
                    == pre.signature_of(e),
            self.system_types() == pre.system_types(),
            forall|s: int| 0 <= s < self.system_types().len() ==> #[trigger] self.required(s) == pre.required(s),
            forall|s: int, e: EntityType|
                0 <= s < self.system_types().len() && e != x ==> (#[trigger] self.members(s).contains(e)
                    == pre.members(s).contains(e)),
            forall|t: int|
                0 <= t < self.component_types().len() && #[trigger] self.store(t).contains_key(x)
                    ==> self.is_live(x),
            self.is_live(x) ==> forall|i: nat|
                #[trigger] self.signature_of(x).contains(i) <==> i < self.component_types().len()
                    && self.store(i as int).contains_key(x),
            forall|s: int|
                0 <= s < self.system_types().len() ==> (#[trigger] self.members(s).contains(x) <==> (
                self.is_live(x) && covers(self.required(s), self.signature_of(x)))),
        ensures
            self.wf(),
    {
        assert forall|t: int, e: EntityType|
            0 <= t < self.component_types().len() && #[trigger] self.store(t).contains_key(e)
            implies self.is_live(e) by {
            if e != x {
                assert(t < pre.component_types().len());
                assert(pre.store(t).contains_key(e));
            }
        }
        assert forall|e: EntityType, i: nat|
            self.is_live(e) implies (#[trigger] self.signature_of(e).contains(i) <==> i
                < self.component_types().len() && self.store(i as int).contains_key(e)) by {
            if e != x {
                assert(pre.signature_of(e).contains(i) <==> i < pre.component_types().len()
                    && pre.store(i as int).contains_key(e));
                if pre.component_types().len() <= i < self.component_types().len() {
                    assert(self.store(i as int) == Map::<EntityType, C>::empty());
                }
            }
        }
        assert forall|s: int, e: EntityType|
            0 <= s < self.system_types().len() implies (#[trigger] self.members(s).contains(e) <==> (
            self.is_live(e) && covers(self.required(s), self.signature_of(e)))) by {
            if e != x {
                assert(pre.members(s).contains(e) <==> (pre.is_live(e) && covers(pre.required(s), pre.signature_of(e))));
            }
        }
    }

    /// A change to the systems alone keeps the agreement between stores
    /// and signatures.
    proof fn lemma_systems_only(&self, pre: &Self)
        requires
            pre.wf(),
            self.component_manager == pre.component_manager,
            self.entity_manager == pre.entity_manager,
        ensures
            forall|t: int, e: EntityType|
                0 <= t < self.component_types().len() && #[trigger] self.store(t).contains_key(e)
                    ==> self.is_live(e),
            forall|e: EntityType, i: nat|
                self.is_live(e) ==> (#[trigger] self.signature_of(e).contains(i) <==> i
                    < self.component_types().len() && self.store(i as int).contains_key(e)),
    {
        assert forall|t: int, e: EntityType|
            0 <= t < self.component_types().len() && #[trigger] self.store(t).contains_key(e)
            implies self.is_live(e) by {
            assert(pre.store(t).contains_key(e));
        }
        assert forall|e: EntityType, i: nat|
            self.is_live(e) implies (#[trigger] self.signature_of(e).contains(i) <==> i
                < self.component_types().len() && self.store(i as int).contains_key(e)) by {
            assert(pre.is_live(e));
            assert(pre.signature_of(e).contains(i) <==> i < pre.component_types().len()
                && pre.store(i as int).contains_key(e));
        }
    }

    /// A world with a pool of `capacity` handles and nothing registered.
    pub fn with_capacity(capacity: EntityType) -> (r: Self)
        ensures
            r.wf(),
            r.capacity() == capacity,
            r.free() == Seq::new(capacity as nat, |i: int| i as EntityType),
            forall|e: EntityType| !r.is_live(e),
            r.component_types() == Seq::<TypeId>::empty(),
            r.system_types() == Seq::<TypeId>::empty(),
    {
        EcsSingleton {
            component_manager: ComponentManager::new(),
            entity_manager: EntityManager::with_capacity(capacity),
            system_manager: SystemManager::new(),
        }
    }

    /// A world with a pool of `MAX_ENTITIES` handles and nothing registered.
    pub fn new() -> (r: Self)
        ensures
            r.wf(),
            r.capacity() == MAX_ENTITIES,
            r.free() == Seq::new(MAX_ENTITIES as nat, |i: int| i as EntityType),
            forall|e: EntityType| !r.is_live(e),
            r.component_types() == Seq::<TypeId>::empty(),
            r.system_types() == Seq::<TypeId>::empty(),
    {
        Self::with_capacity(MAX_ENTITIES)
    }

    /// The two worlds agree on every entity, store and system.
    pub open spec fn same_as(&self, other: &Self) -> bool {
        &&& self.capacity() == other.capacity()
        &&& self.free() == other.free()
        &&& forall|e: EntityType| #[trigger] self.is_live(e) == other.is_live(e)
        &&& forall|e: EntityType| #[trigger] self.signature_of(e) == other.signature_of(e)
        &&& self.component_types() == other.component_types()
        &&& forall|t: int| 0 <= t < self.component_types().len() ==> #[trigger] self.store(t) == other.store(t)
        &&& forall|t: int| 0 <= t < self.component_types().len() ==> #[trigger] self.store_count(t) == other.store_count(t)
        &&& self.system_types() == other.system_types()
        &&& forall|s: int| 0 <= s < self.system_types().len() ==> #[trigger] self.members(s) == other.members(s)
        &&& forall|s: int| 0 <= s < self.system_types().len() ==> #[trigger] self.required(s) == other.required(s)
    }

    /// Hands out the handle that has been free the longest, as a live
    /// entity with no components.
    pub fn create_entity(&mut self) -> (r: Result<EntityType, EcsError>)
        requires
            old(self).wf(),
        ensures
            final(self).wf(),
            r is Err <==> old(self).free().len() == 0,
            r is Err ==> r == Err::<EntityType, EcsError>(EcsError::CapacityExceeded) && final(self).same_as(old(self)),
            r matches Ok(id) ==> {
                &&& id == old(self).free()[0]
                &&& final(self).free() == old(self).free().drop_first()
                &&& !old(self).is_live(id)
                &&& final(self).is_live(id)
                &&& final(self).signature_of(id) == Set::<nat>::empty()
                &&& forall|e: EntityType|
                    e != id ==> #[trigger] final(self).is_live(e) == old(self).is_live(e)
                        && final(self).signature_of(e) == old(self).signature_of(e)
                &&& forall|t: int| 0 <= t < old(self).component_types().len() ==> !#[trigger] final(self).store(t).contains_key(id)
                &&& forall|s: int| 0 <= s < old(self).system_types().len() ==> (#[trigger] final(self).members(s).contains(id)
                    <==> covers(old(self).required(s), Set::<nat>::empty()))
                &&& forall|s: int, e: EntityType| 0 <= s < old(self).system_types().len() && e != id ==> (
                    #[trigger] final(self).members(s).contains(e) == old(self).members(s).contains(e))
            },
            final(self).capacity() == old(self).capacity(),
            final(self).component_types() == old(self).component_types(),
            forall|t: int| #[trigger] final(self).store(t) == old(self).store(t),
            forall|t: int| #[trigger] final(self).store_count(t) == old(self).store_count(t),
            final(self).system_types() == old(self).system_types(),
            forall|s: int| 0 <= s < old(self).system_types().len() ==> #[trigger] final(self).required(s) == old(self).required(s),
    {
        let ghost pre = *self;
        let id = match self.entity_manager.create_entity() {
            Ok(id) => id,
            Err(e) => {
                proof {
                    self.lemma_wf_when_same(&pre);
                }
                return Err(e);
            },
        };
        let empty = Signature::new();
        self.system_manager.entity_signature_changed(id, &empty);
        proof {
            assert forall|t: int| 0 <= t < self.component_types().len() implies !#[trigger] self.store(t).contains_key(id) by {
                if pre.store(t).contains_key(id) {
                    assert(pre.is_live(id));
                }
            }
            assert forall|s: int| 0 <= s < self.system_types().len() implies (#[trigger] self.members(s).contains(id)
                <==> (self.is_live(id) && covers(self.required(s), self.signature_of(id)))) by {
                assert(pre.members(s).contains(id) <==> (pre.is_live(id) && covers(pre.required(s), pre.signature_of(id))));
            }
            self.lemma_wf_restored(&pre, id);
        }
        Ok(id)
    }

    /// Retires live entity `entity`: its components are dropped, it leaves
    /// every system, and its handle goes to the back of the free pool.
    pub fn destroy_entity(&mut self, entity: EntityType) -> (r: Result<(), EcsError>)
        requires
            old(self).wf(),
        ensures
            final(self).wf(),
            r is Ok <==> old(self).is_live(entity),
            r is Err ==> r == Err::<(), EcsError>(EcsError::UnknownEntity) && final(self).same_as(old(self)),
            r is Ok ==> {
                &&& !final(self).is_live(entity)
                &&& final(self).signature_of(entity) == Set::<nat>::empty()
                &&& final(self).free() == old(self).free().push(entity)
                &&& forall|e: EntityType|
                    e != entity ==> #[trigger] final(self).is_live(e) == old(self).is_live(e)
                        && final(self).signature_of(e) == old(self).signature_of(e)
                &&& forall|t: int| 0 <= t < old(self).component_types().len() ==> #[trigger] final(self).store(t) == old(self).store(t).remove(entity)
                &&& forall|t: int| 0 <= t < old(self).component_types().len() ==> #[trigger] final(self).store_count(t) == if old(self).store(t).contains_key(entity) {
                    old(self).store_count(t) - 1
                } else {
                    old(self).store_count(t) as int
                }
                &&& forall|s: int| 0 <= s < old(self).system_types().len() ==> #[trigger] final(self).members(s) == old(self).members(s).remove(entity)
            },
            final(self).capacity() == old(self).capacity(),
            final(self).component_types() == old(self).component_types(),
            final(self).system_types() == old(self).system_types(),
            forall|s: int| 0 <= s < old(self).system_types().len() ==> #[trigger] final(self).required(s) == old(self).required(s),
    {
        let ghost pre = *self;
        if self.entity_manager.get_signature(entity).is_err() {
            return Err(EcsError::UnknownEntity);
        }
        self.component_manager.entity_destroyed(entity);
        self.system_manager.entity_destroyed(entity);
        let _ = self.entity_manager.destroy_entity(entity);
        proof {
            self.entity_manager.lemma_live_in_pool(entity);
            self.lemma_wf_restored(&pre, entity);
        }
        Ok(())
    }

    /// Registers the component type under `key`, with the next type index
    /// and an empty store.
    pub fn register_component(&mut self, key: TypeId) -> (r: Result<ComponentType, EcsError>)
        requires
            old(self).wf(),
        ensures
            final(self).wf(),
            old(self).component_types().contains(key) ==> r == Err::<ComponentType, EcsError>(
                EcsError::DuplicateRegistration,
            ),
            !old(self).component_types().contains(key) && old(self).component_types().len() == crate::config::MAX_COMPONENTS ==> r
                == Err::<ComponentType, EcsError>(EcsError::CapacityExceeded),
            !old(self).component_types().contains(key) && old(self).component_types().len() < crate::config::MAX_COMPONENTS ==> r
                == Ok::<ComponentType, EcsError>(old(self).component_types().len() as ComponentType),
            r is Ok ==> final(self).component_types() == old(self).component_types().push(key)
                && final(self).store(old(self).component_types().len() as int) == Map::<EntityType, C>::empty()
                && final(self).store_count(old(self).component_types().len() as int) == 0,
            r is Err ==> final(self).component_types() == old(self).component_types(),
            forall|t: int| 0 <= t < old(self).component_types().len() ==> #[trigger] final(self).store(t) == old(self).store(t),
            forall|t: int| 0 <= t < old(self).component_types().len() ==> #[trigger] final(self).store_count(t) == old(self).store_count(t),
            forall|e: EntityType| #[trigger] final(self).is_live(e) == old(self).is_live(e),
            forall|e: EntityType| #[trigger] final(self).signature_of(e) == old(self).signature_of(e),
            final(self).capacity() == old(self).capacity(),
            final(self).free() == old(self).free(),
            final(self).system_types() == old(self).system_types(),
            forall|s: int| 0 <= s < old(self).system_types().len() ==> #[trigger] final(self).members(s) == old(self).members(s),
            forall|s: int| 0 <= s < old(self).system_types().len() ==> #[trigger] final(self).required(s) == old(self).required(s),
    {
        let ghost pre = *self;
        let r = self.component_manager.register_component(key);
        proof {
            assert forall|t: int, x: EntityType|
                0 <= t < self.component_types().len() && #[trigger] self.store(t).contains_key(x)
                implies self.is_live(x) by {
                if t < pre.component_types().len() {
                    assert(pre.store(t).contains_key(x));
                }
            }
            assert forall|e: EntityType, i: nat|
                self.is_live(e) implies (#[trigger] self.signature_of(e).contains(i) <==> i
                    < self.component_types().len() && self.store(i as int).contains_key(e)) by {
                assert(pre.signature_of(e).contains(i) <==> i < pre.component_types().len()
                    && pre.store(i as int).contains_key(e));
            }
            assert forall|s: int, e: EntityType|
                0 <= s < self.system_types().len() implies (#[trigger] self.members(s).contains(e) <==> (
                self.is_live(e) && covers(self.required(s), self.signature_of(e)))) by {
                assert(pre.members(s).contains(e) <==> (pre.is_live(e) && covers(pre.required(s), pre.signature_of(e))));
            }
        }
        r
    }

    /// The type index registered under `key`.
    pub fn get_component_type(&self, key: TypeId) -> (r: Result<ComponentType, EcsError>)
        requires
            self.wf(),
        ensures
            match r {
                Ok(t) => self.component_types().contains(key) && t == self.type_index(key),
                Err(e) => !self.component_types().contains(key) && e == EcsError::UnregisteredType,
            },
    {
        self.component_manager.get_component_type(key)
    }

    /// Registers a system under `key`, with no signature and no entities.
    pub fn register_system(&mut self, key: TypeId) -> (r: Result<TypeId, EcsError>)
        requires
            old(self).wf(),
        ensures
            final(self).wf(),
            old(self).system_types().contains(key) <==> r is Err,
            r is Err ==> r == Err::<TypeId, EcsError>(EcsError::DuplicateRegistration) && final(self).system_types() == old(self).system_types(),
            r is Ok ==> r == Ok::<TypeId, EcsError>(key) && final(self).system_types() == old(self).system_types().push(key)
                && final(self).members(old(self).system_types().len() as int) == Set::<EntityType>::empty()
                && final(self).required(old(self).system_types().len() as int) is None,
            forall|s: int| 0 <= s < old(self).system_types().len() ==> #[trigger] final(self).members(s) == old(self).members(s),
            forall|s: int| 0 <= s < old(self).system_types().len() ==> #[trigger] final(self).required(s) == old(self).required(s),
            final(self).component_types() == old(self).component_types(),
            forall|t: int| #[trigger] final(self).store(t) == old(self).store(t),
            forall|t: int| #[trigger] final(self).store_count(t) == old(self).store_count(t),
            forall|e: EntityType| #[trigger] final(self).is_live(e) == old(self).is_live(e),
            forall|e: EntityType| #[trigger] final(self).signature_of(e) == old(self).signature_of(e),
            final(self).free() == old(self).free(),
    {
        let ghost pre = *self;
        let r = self.system_manager.register_system(key);
        proof {
            assert forall|s: int, e: EntityType|
                0 <= s < self.system_types().len() implies (#[trigger] self.members(s).contains(e) <==> (
                self.is_live(e) && covers(self.required(s), self.signature_of(e)))) by {
                if s < pre.system_types().len() {
                    assert(pre.members(s).contains(e) <==> (pre.is_live(e) && covers(pre.required(s), pre.signature_of(e))));
                } else {
                    assert(self.required(s) is None);
                    assert(!self.members(s).contains(e));
                }
            }
            self.lemma_systems_only(&pre);
        }
        r
    }

    /// The system registered under `key`.
    pub fn get_system(&self, key: TypeId) -> (r: Result<&System, EcsError>)
        requires
            self.wf(),
        ensures
            match r {
                Ok(sys) => self.system_types().contains(key) && sys@ == self.members(self.system_index(key)),
                Err(e) => !self.system_types().contains(key) && e == EcsError::UnregisteredType,
            },
    {
        self.system_manager.get_system(key)
    }

    /// Whether `entity` belongs to the system registered under `key`.
    pub fn is_interested(&self, key: TypeId, entity: EntityType) -> (r: Result<bool, EcsError>)
        requires
            self.wf(),
        ensures
            match r {
                Ok(b) => self.system_types().contains(key) && b == self.members(self.system_index(key)).contains(entity),
                Err(e) => !self.system_types().contains(key) && e == EcsError::UnregisteredType,
            },
    {
        match self.system_manager.get_system(key) {
            Ok(sys) => Ok(sys.contains(entity)),
            Err(e) => Err(e),
        }
    }

    /// Installs the signature that the system under `key` requires, then
    /// recomputes its entities from every live entity.
    pub fn set_system_signature(&mut self, key: TypeId, signature: Signature) -> (r: Result<(), EcsError>)
        requires
            old(self).wf(),
        ensures
            final(self).wf(),
            r is Ok <==> old(self).system_types().contains(key),
            r is Err ==> r == Err::<(), EcsError>(EcsError::UnregisteredType) && final(self).same_as(old(self)),
            r is Ok ==> final(self).required(old(self).system_index(key)) == Some(signature@),
            r is Ok ==> forall|e: EntityType| #[trigger] final(self).members(old(self).system_index(key)).contains(e)
                <==> final(self).is_live(e) && signature@.subset_of(final(self).signature_of(e)),
            forall|s: int| 0 <= s < old(self).system_types().len() && s != old(self).system_index(key) ==> #[trigger] final(self).members(s) == old(self).members(s),
            forall|s: int| 0 <= s < old(self).system_types().len() && s != old(self).system_index(key) ==> #[trigger] final(self).required(s) == old(self).required(s),
            final(self).system_types() == old(self).system_types(),
            final(self).component_types() == old(self).component_types(),
            forall|t: int| #[trigger] final(self).store(t) == old(self).store(t),
            forall|t: int| #[trigger] final(self).store_count(t) == old(self).store_count(t),
            forall|e: EntityType| #[trigger] final(self).is_live(e) == old(self).is_live(e),
            forall|e: EntityType| #[trigger] final(self).signature_of(e) == old(self).signature_of(e),
            final(self).free() == old(self).free(),
    {
        let ghost pre = *self;
        let r = self.system_manager.set_signatures(key, signature);
        if r.is_err() {
            proof {
                self.lemma_wf_when_same(&pre);
            }
            return r;
        }
        let r2 = self.system_manager.rescan(key, &self.entity_manager);
        proof {
            self.lemma_systems_only(&pre);
            let k = pre.system_index(key);
            assert forall|s: int, e: EntityType|
                0 <= s < self.system_types().len() implies (#[trigger] self.members(s).contains(e) <==> (
                self.is_live(e) && covers(self.required(s), self.signature_of(e)))) by {
                if s != k {
                    assert(pre.members(s).contains(e) <==> (pre.is_live(e) && covers(pre.required(s), pre.signature_of(e))));
                } else {
                    assert(self.required(s) == Some(signature@));
                }
            }
        }
        r2
    }

    /// Gives `entity` the component `component` of the type registered under
    /// `key`; its signature gains the type and every system is told.
    pub fn add_component(&mut self, key: TypeId, entity: EntityType, component: C) -> (r: Result<(), EcsError>)
        requires
            old(self).wf(),
        ensures
            final(self).wf(),
            !old(self).component_types().contains(key) ==> r == Err::<(), EcsError>(EcsError::UnregisteredType),
            old(self).component_types().contains(key) && !old(self).is_live(entity) ==> r == Err::<(), EcsError>(EcsError::UnknownEntity),
            old(self).component_types().contains(key) && old(self).is_live(entity)
                && old(self).store(old(self).type_index(key)).contains_key(entity) ==> r == Err::<(), EcsError>(EcsError::DuplicateComponent),
            old(self).component_types().contains(key) && old(self).is_live(entity)
                && !old(self).store(old(self).type_index(key)).contains_key(entity)
                && old(self).store_count(old(self).type_index(key)) == MAX_ENTITIES ==> r == Err::<(), EcsError>(EcsError::CapacityExceeded),
            old(self).component_types().contains(key) && old(self).is_live(entity)
                && !old(self).store(old(self).type_index(key)).contains_key(entity)
                && old(self).store_count(old(self).type_index(key)) < MAX_ENTITIES ==> r is Ok,
            r is Ok ==> final(self).store_count(old(self).type_index(key)) == old(self).store_count(old(self).type_index(key)) + 1,
            r is Err ==> final(self).same_as(old(self)),
            r is Ok ==> {
                &&& final(self).store(old(self).type_index(key)) == old(self).store(old(self).type_index(key)).insert(entity, component)
                &&& final(self).signature_of(entity) == old(self).signature_of(entity).insert(old(self).type_index(key) as nat)
                &&& forall|t: int| 0 <= t < old(self).component_types().len() && t != old(self).type_index(key) ==> #[trigger] final(self).store(t) == old(self).store(t)
                &&& forall|t: int| 0 <= t < old(self).component_types().len() && t != old(self).type_index(key) ==> #[trigger] final(self).store_count(t) == old(self).store_count(t)
                &&& forall|e: EntityType| e != entity ==> #[trigger] final(self).signature_of(e) == old(self).signature_of(e)
            },
            final(self).capacity() == old(self).capacity(),
            final(self).free() == old(self).free(),
            forall|e: EntityType| #[trigger] final(self).is_live(e) == old(self).is_live(e),
            final(self).component_types() == old(self).component_types(),
            final(self).system_types() == old(self).system_types(),
            forall|s: int| 0 <= s < old(self).system_types().len() ==> #[trigger] final(self).required(s) == old(self).required(s),
    {
        let ghost pre = *self;
        let t = match self.component_manager.get_component_type(key) {
            Ok(t) => t,
            Err(e) => {
                return Err(e);
            },
        };
        let mut sig = match self.entity_manager.get_signature(entity) {
            Ok(held) => held.copied(),
            Err(e) => {
                return Err(e);
            },
        };
        match self.component_manager.add_component(t, entity, component) {
            Ok(()) => {},
            Err(e) => {
                proof {
                    assert forall|t2: int| 0 <= t2 < self.component_types().len() implies #[trigger] self.store_count(t2) == pre.store_count(t2) by {
                        assert(self.store(t2) == pre.store(t2));
                    }
                    self.lemma_wf_when_same(&pre);
                }
                return Err(e);
            },
        }
        sig.insert(t);
        let notify = sig.copied();
        let _ = self.entity_manager.set_signature(entity, sig);
        self.system_manager.entity_signature_changed(entity, &notify);
        proof {
            assert forall|i: nat| #[trigger] self.signature_of(entity).contains(i) <==> i
                < self.component_types().len() && self.store(i as int).contains_key(entity) by {
                assert(pre.signature_of(entity).contains(i) <==> i < pre.component_types().len()
                    && pre.store(i as int).contains_key(entity));
            }
            assert forall|s: int| 0 <= s < self.system_types().len() implies (#[trigger] self.members(s).contains(entity)
                <==> (self.is_live(entity) && covers(self.required(s), self.signature_of(entity)))) by {
                assert(pre.members(s).contains(entity) <==> (pre.is_live(entity) && covers(pre.required(s), pre.signature_of(entity))));
            }
            self.lemma_wf_restored(&pre, entity);
        }
        Ok(())
    }

    /// Takes the component of the type registered under `key` away from
    /// `entity`; its signature loses the type and every system is told.
    pub fn remove_component(&mut self, key: TypeId, entity: EntityType) -> (r: Result<(), EcsError>)
        requires
            old(self).wf(),
        ensures
            final(self).wf(),
            !old(self).component_types().contains(key) ==> r == Err::<(), EcsError>(EcsError::UnregisteredType),
            old(self).component_types().contains(key) && !old(self).is_live(entity) ==> r == Err::<(), EcsError>(EcsError::UnknownEntity),
            old(self).component_types().contains(key) && old(self).is_live(entity) ==> (r is Ok <==> old(self).store(old(self).type_index(key)).contains_key(entity)),
            old(self).component_types().contains(key) && old(self).is_live(entity)
                && !old(self).store(old(self).type_index(key)).contains_key(entity) ==> r == Err::<(), EcsError>(EcsError::UnknownComponent),
            r is Ok ==> final(self).store_count(old(self).type_index(key)) == old(self).store_count(old(self).type_index(key)) - 1,
            r is Err ==> final(self).same_as(old(self)),
            r is Ok ==> {
                &&& final(self).store(old(self).type_index(key)) == old(self).store(old(self).type_index(key)).remove(entity)
                &&& final(self).signature_of(entity) == old(self).signature_of(entity).remove(old(self).type_index(key) as nat)
                &&& forall|t: int| 0 <= t < old(self).component_types().len() && t != old(self).type_index(key) ==> #[trigger] final(self).store(t) == old(self).store(t)
                &&& forall|t: int| 0 <= t < old(self).component_types().len() && t != old(self).type_index(key) ==> #[trigger] final(self).store_count(t) == old(self).store_count(t)
                &&& forall|e: EntityType| e != entity ==> #[trigger] final(self).signature_of(e) == old(self).signature_of(e)
            },
            final(self).capacity() == old(self).capacity(),
            final(self).free() == old(self).free(),
            forall|e: EntityType| #[trigger] final(self).is_live(e) == old(self).is_live(e),
            final(self).component_types() == old(self).component_types(),
            final(self).system_types() == old(self).system_types(),
            forall|s: int| 0 <= s < old(self).system_types().len() ==> #[trigger] final(self).required(s) == old(self).required(s),
    {
        let ghost pre = *self;
        let t = match self.component_manager.get_component_type(key) {
            Ok(t) => t,
            Err(e) => {
                return Err(e);
            },
        };
        let mut sig = match self.entity_manager.get_signature(entity) {
            Ok(held) => held.copied(),
            Err(e) => {
                return Err(e);
            },
        };
        match self.component_manager.remove_component(t, entity) {
            Ok(()) => {},
            Err(e) => {
                proof {
                    assert forall|t2: int| 0 <= t2 < self.component_types().len() implies #[trigger] self.store_count(t2) == pre.store_count(t2) by {
                        assert(self.store(t2) == pre.store(t2));
                    }
                    self.lemma_wf_when_same(&pre);
                }
                return Err(e);
            },
        }
        sig.remove(t);
        let notify = sig.copied();
        let _ = self.entity_manager.set_signature(entity, sig);
        self.system_manager.entity_signature_changed(entity, &notify);
        proof {
            assert forall|i: nat| #[trigger] self.signature_of(entity).contains(i) <==> i
                < self.component_types().len() && self.store(i as int).contains_key(entity) by {
                assert(pre.signature_of(entity).contains(i) <==> i < pre.component_types().len()
                    && pre.store(i as int).contains_key(entity));
            }
            assert forall|s: int| 0 <= s < self.system_types().len() implies (#[trigger] self.members(s).contains(entity)
                <==> (self.is_live(entity) && covers(self.required(s), self.signature_of(entity)))) by {
                assert(pre.members(s).contains(entity) <==> (pre.is_live(entity) && covers(pre.required(s), pre.signature_of(entity))));
            }
            self.lemma_wf_restored(&pre, entity);
        }
        Ok(())
    }

    /// The component of the type registered under `key` that `entity` holds.
    pub fn get_component(&self, key: TypeId, entity: EntityType) -> (r: Result<&C, EcsError>)
        requires
            self.wf(),
        ensures
            match r {
                Ok(v) => self.component_types().contains(key) && self.store(self.type_index(key)).contains_key(entity)
                    && *v == self.store(self.type_index(key))[entity],
                Err(e) => if self.component_types().contains(key) {
                    !self.store(self.type_index(key)).contains_key(entity) && e == EcsError::UnknownComponent
                } else {
                    e == EcsError::UnregisteredType
                },
            },
    {
        let t = match self.component_manager.get_component_type(key) {
            Ok(t) => t,
            Err(e) => {
                return Err(e);
            },
        };
        self.component_manager.get_component(t, entity)
    }

    /// Mutable access to the component of the type registered under `key`
    /// that `entity` holds.
    pub fn get_component_mut(&mut self, key: TypeId, entity: EntityType) -> (r: Result<&mut C, EcsError>)
        requires
            old(self).wf(),
        ensures
            match r {
                Ok(v) => {
                    &&& old(self).component_types().contains(key)
                    &&& old(self).store(old(self).type_index(key)).contains_key(entity)
                    &&& *v == old(self).store(old(self).type_index(key))[entity]
                    &&& final(self).store(old(self).type_index(key)) == old(self).store(old(self).type_index(key)).insert(entity, *final(v))
                },
                Err(e) => if old(self).component_types().contains(key) {
                    !old(self).store(old(self).type_index(key)).contains_key(entity) && e == EcsError::UnknownComponent
                } else {
                    e == EcsError::UnregisteredType
                },
            },
            final(self).wf(),
            final(self).component_types() == old(self).component_types(),
            forall|t: int| 0 <= t < old(self).component_types().len() && (r is Err || t != old(self).type_index(key)) ==> #[trigger] final(self).store(t) == old(self).store(t),
            forall|t: int| 0 <= t < old(self).component_types().len() ==> #[trigger] final(self).store_count(t) == old(self).store_count(t),
            final(self).capacity() == old(self).capacity(),
            final(self).free() == old(self).free(),
            forall|e: EntityType| #[trigger] final(self).is_live(e) == old(self).is_live(e),
            forall|e: EntityType| #[trigger] final(self).signature_of(e) == old(self).signature_of(e),
            final(self).system_types() == old(self).system_types(),
            forall|s: int| 0 <= s < old(self).system_types().len() ==> #[trigger] final(self).members(s) == old(self).members(s),
            forall|s: int| 0 <= s < old(self).system_types().len() ==> #[trigger] final(self).required(s) == old(self).required(s),
    {
        let t = match self.component_manager.get_component_type(key) {
            Ok(t) => t,
            Err(e) => {
                return Err(e);
            },
        };
        proof {
            Self::lemma_overwrite_keeps_domain();
            Self::lemma_values_only();
        }
        self.component_manager.get_component_mut(t, entity)
    }

    /// A system holds an entity exactly when the entity is live and its
    /// signature covers the signature the system requires; this holds in
    /// every well-formed world, so right after any component change.
    pub proof fn lemma_interest_matches_signature(&self, key: TypeId, e: EntityType)
        requires
            self.wf(),
            self.system_types().contains(key),
            self.required(self.system_index(key)) is Some,
        ensures
            self.members(self.system_index(key)).contains(e) <==> self.is_live(e)
                && self.required(self.system_index(key))->Some_0.subset_of(self.signature_of(e)),
    {
        let s = self.system_index(key);
        assert(0 <= s < self.system_types().len());
        assert(self.members(s).contains(e) <==> (self.is_live(e) && covers(self.required(s), self.signature_of(e))));
    }

    /// An entity's signature lists exactly the component types it holds.
    pub proof fn lemma_signature_lists_components(&self, e: EntityType, t: int)
        requires
            self.wf(),
            0 <= t < self.component_types().len(),
        ensures
            self.signature_of(e).contains(t as nat) <==> self.store(t).contains_key(e),
    {
        if self.store(t).contains_key(e) {
            assert(self.is_live(e));
        }
        if self.is_live(e) {
            assert(self.signature_of(e).contains(t as nat) <==> (t as nat) < self.component_types().len()
                && self.store(t).contains_key(e));
        } else {
            self.entity_manager.lemma_live_in_pool(e);
        }
    }

    /// An entity that is not live holds no component, belongs to no system
    /// and has an empty signature: once destroyed, nothing of it is left
    /// for a later entity that reuses its handle.
    pub proof fn lemma_dead_entity_leaves_nothing(&self, e: EntityType)
        requires
            self.wf(),
            !self.is_live(e),
        ensures
            self.signature_of(e) == Set::<nat>::empty(),
            forall|t: int| 0 <= t < self.component_types().len() ==> !#[trigger] self.store(t).contains_key(e),
            forall|s: int| 0 <= s < self.system_types().len() ==> !#[trigger] self.members(s).contains(e),
    {
        self.entity_manager.lemma_live_in_pool(e);
        assert forall|s: int| 0 <= s < self.system_types().len() implies !#[trigger] self.members(s).contains(e) by {
            assert(self.members(s).contains(e) <==> (self.is_live(e) && covers(self.required(s), self.signature_of(e))));
        }
    }

    /// Adding a component and then reading it gives back the value added.
    pub proof fn lemma_add_then_get(pre: &Self, post: &Self, key: TypeId, e: EntityType, v: C)
        requires
            post.component_types() == pre.component_types(),
            post.store(pre.type_index(key)) == pre.store(pre.type_index(key)).insert(e, v),
        ensures
            post.store(post.type_index(key)).contains_key(e),
            post.store(post.type_index(key))[e] == v,
    {
    }

    /// Removing a component leaves the entity without one of that type and
    /// every other entity's component of that type as it was.
    pub proof fn lemma_remove_keeps_others(pre: &Self, post: &Self, key: TypeId, e: EntityType)
        requires
            post.component_types() == pre.component_types(),
            post.store(pre.type_index(key)) == pre.store(pre.type_index(key)).remove(e),
        ensures
            !post.store(post.type_index(key)).contains_key(e),
            forall|x: EntityType|
                x != e ==> (#[trigger] post.store(post.type_index(key)).contains_key(x) == pre.store(
                    pre.type_index(key),
                ).contains_key(x)),
            forall|x: EntityType|
                x != e && pre.store(pre.type_index(key)).contains_key(x) ==> #[trigger] post.store(
                    post.type_index(key),
                )[x] == pre.store(pre.type_index(key))[x],
    {
    }

    /// A system whose signature has not been set holds no entity.
    pub proof fn lemma_unset_system_is_empty(&self, s: int)
        requires
            self.wf(),
            0 <= s < self.system_types().len(),
            self.required(s) is None,
        ensures
            self.members(s) == Set::<EntityType>::empty(),
    {
        assert forall|e: EntityType| !self.members(s).contains(e) by {
            assert(self.members(s).contains(e) <==> (self.is_live(e) && covers(self.required(s), self.signature_of(e))));
        }
        assert(self.members(s) =~= Set::<EntityType>::empty());
    }

    /// Live and free handles all lie below the size of the pool.
    pub proof fn lemma_handles_in_pool(&self, e: EntityType)
        requires
            self.wf(),
        ensures
            self.is_live(e) ==> e < self.capacity(),
            forall|j: int| 0 <= j < self.free().len() ==> #[trigger] self.free()[j] < self.capacity(),
    {
        self.entity_manager.lemma_live_in_pool(e);
    }
}

} // verus!
