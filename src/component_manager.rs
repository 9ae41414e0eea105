use std::any::TypeId;
use vstd::prelude::*;

use crate::component::ComponentArray;
use crate::config::{ComponentType, EcsError, EntityType, MAX_COMPONENTS, MAX_ENTITIES};
use crate::type_key::find_key;

verus! {

/// The registered component types, each with its own store. Type `i` is
/// the `i`-th type registered; `C` is the type of the stored values.
pub struct ComponentManager<C> {
    component_types: Vec<TypeId>,
    component_arrays: Vec<ComponentArray<C>>,
}

impl<C> ComponentManager<C> {
    /// The registered keys, by component type.
    pub closed spec fn types(&self) -> Seq<TypeId> {
        self.component_types@
    }

    /// Which entity holds which value of component type `t`.
    pub closed spec fn store(&self, t: int) -> Map<EntityType, C> {
        self.component_arrays@[t]@
    }

    /// Number of occupied slots in the store of component type `t`.
    pub closed spec fn store_count(&self, t: int) -> nat {
        self.component_arrays@[t].count()
    }

    /// Keys are distinct, there is one well-formed store per key, and the
    /// types fit in a signature.
    pub closed spec fn wf(&self) -> bool {
        &&& self.component_types@.len() == self.component_arrays@.len()
        &&& self.component_types@.len() <= MAX_COMPONENTS
        &&& self.component_types@.no_duplicates()
        &&& forall|t: int|
            0 <= t < self.component_arrays@.len() ==> #[trigger] self.component_arrays@[t].wf()
    }

    /// No component type is registered.
    pub fn new() -> (r: Self)
        ensures
            r.wf(),
            r.types() == Seq::<TypeId>::empty(),
    {
        ComponentManager { component_types: Vec::new(), component_arrays: Vec::new() }
    }

    /// Registers the component type under `key`, with the next type index
    /// and an empty store.
    pub fn register_component(&mut self, key: TypeId) -> (r: Result<ComponentType, EcsError>)
        requires
            old(self).wf(),
        ensures
            final(self).wf(),
            old(self).types().contains(key) ==> r == Err::<ComponentType, EcsError>(
                EcsError::DuplicateRegistration,
            ),
            !old(self).types().contains(key) && old(self).types().len() == MAX_COMPONENTS ==> r
                == Err::<ComponentType, EcsError>(EcsError::CapacityExceeded),
            !old(self).types().contains(key) && old(self).types().len() < MAX_COMPONENTS ==> r
                == Ok::<ComponentType, EcsError>(old(self).types().len() as ComponentType),
            r is Ok ==> final(self).types() == old(self).types().push(key) && final(self).store(
                old(self).types().len() as int,
            ) == Map::<EntityType, C>::empty() && final(self).store_count(
                old(self).types().len() as int,
            ) == 0,
            r is Err ==> final(self).types() == old(self).types(),
            forall|t: int|
                0 <= t < old(self).types().len() ==> #[trigger] final(self).store(t) == old(self).store(t),
            forall|t: int|
                0 <= t < old(self).types().len() ==> #[trigger] final(self).store_count(t) == old(self).store_count(t),
    {
        if find_key(&self.component_types, &key).is_some() {
            return Err(EcsError::DuplicateRegistration);
        }
        if self.component_types.len() >= MAX_COMPONENTS as usize {
            return Err(EcsError::CapacityExceeded);
        }
        let t = self.component_types.len() as ComponentType;
        self.component_types.push(key);
        self.component_arrays.push(ComponentArray::new());
        assert forall|i: int, j: int|
            0 <= i < self.component_types@.len() && 0 <= j < self.component_types@.len() && i != j
            implies self.component_types@[i] != self.component_types@[j] by {
            if i == t || j == t {
                assert(old(self).component_types@.len() == t);
            }
        }
        Ok(t)
    }

    /// The type index registered under `key`.
    pub fn get_component_type(&self, key: TypeId) -> (r: Result<ComponentType, EcsError>)
        requires
            self.wf(),
        ensures
            match r {
                Ok(t) => t < self.types().len() && self.types()[t as int] == key && t as int
                    == self.types().index_of(key) && t < MAX_COMPONENTS,
                Err(e) => !self.types().contains(key) && e == EcsError::UnregisteredType,
            },
    {
        match find_key(&self.component_types, &key) {
            Some(i) => {
                assert(self.types().contains(key));
                Ok(i as ComponentType)
            },
            None => Err(EcsError::UnregisteredType),
        }
    }

    /// The store of the component type registered under `key`.
    pub fn get_component_array(&self, key: TypeId) -> (r: Result<&ComponentArray<C>, EcsError>)
        requires
            self.wf(),
        ensures
            match r {
                Ok(a) => exists|t: int|
                    0 <= t < self.types().len() && self.types()[t] == key && a@ == self.store(t)
                        && a.count() == self.store_count(t),
                Err(e) => !self.types().contains(key) && e == EcsError::UnregisteredType,
            },
            r matches Ok(a) ==> a.wf(),
    {
        match find_key(&self.component_types, &key) {
            Some(i) => {
                let a = &self.component_arrays[i];
                assert(a@ == self.store(i as int) && a.count() == self.store_count(i as int));
                Ok(a)
            },
            None => Err(EcsError::UnregisteredType),
        }
    }

    /// Stores `component` for `entity` under component type `t`.
    pub fn add_component(&mut self, t: ComponentType, entity: EntityType, component: C) -> (r:
        Result<(), EcsError>)
        requires
            old(self).wf(),
        ensures
            final(self).wf(),
            final(self).types() == old(self).types(),
            t >= old(self).types().len() ==> r == Err::<(), EcsError>(EcsError::UnregisteredType),
            t < old(self).types().len() && old(self).store(t as int).contains_key(entity) ==> r
                == Err::<(), EcsError>(EcsError::DuplicateComponent),
            t < old(self).types().len() && !old(self).store(t as int).contains_key(entity)
                && old(self).store_count(t as int) == MAX_ENTITIES ==> r == Err::<(), EcsError>(
                EcsError::CapacityExceeded,
            ),
            t < old(self).types().len() && !old(self).store(t as int).contains_key(entity)
                && old(self).store_count(t as int) < MAX_ENTITIES ==> r is Ok,
            r is Ok ==> final(self).store(t as int) == old(self).store(t as int).insert(
                entity,
                component,
            ) && final(self).store_count(t as int) == old(self).store_count(t as int) + 1,
            r is Err ==> final(self).store(t as int) == old(self).store(t as int) && final(self).store_count(t as int) == old(self).store_count(t as int),
            forall|u: int|
                0 <= u < old(self).types().len() && u != t ==> #[trigger] final(self).store(u)
                    == old(self).store(u),
            forall|u: int|
                0 <= u < old(self).types().len() && u != t ==> #[trigger] final(self).store_count(u)
                    == old(self).store_count(u),
    {
        if t as usize >= self.component_arrays.len() {
            return Err(EcsError::UnregisteredType);
        }
        let ghost old_arrays = self.component_arrays@;
        let r = self.component_arrays[t as usize].insert_data(entity, component);
        assert forall|u: int|
            0 <= u < self.component_arrays@.len() implies #[trigger] self.component_arrays@[u].wf() by {
            if u != t {
                assert(self.component_arrays@[u] == old_arrays[u]);
            }
        }
        r
    }

    /// Takes the component of type `t` away from `entity`.
    pub fn remove_component(&mut self, t: ComponentType, entity: EntityType) -> (r: Result<
        (),
        EcsError,
    >)
        requires
            old(self).wf(),
        ensures
            final(self).wf(),
            final(self).types() == old(self).types(),
            t >= old(self).types().len() ==> r == Err::<(), EcsError>(EcsError::UnregisteredType),
            t < old(self).types().len() ==> (r is Ok <==> old(self).store(t as int).contains_key(
                entity,
            )),
            t < old(self).types().len() && r is Err ==> r == Err::<(), EcsError>(
                EcsError::UnknownComponent,
            ),
            r is Ok ==> final(self).store(t as int) == old(self).store(t as int).remove(entity)
                && final(self).store_count(t as int) == old(self).store_count(t as int) - 1,
            r is Err ==> final(self).store(t as int) == old(self).store(t as int) && final(self).store_count(t as int) == old(self).store_count(t as int),
            forall|u: int|
                0 <= u < old(self).types().len() && u != t ==> #[trigger] final(self).store(u)
                    == old(self).store(u),
            forall|u: int|
                0 <= u < old(self).types().len() && u != t ==> #[trigger] final(self).store_count(u)
                    == old(self).store_count(u),
    {
        if t as usize >= self.component_arrays.len() {
            return Err(EcsError::UnregisteredType);
        }
        let ghost old_arrays = self.component_arrays@;
        let r = self.component_arrays[t as usize].remove_data(entity);
        assert forall|u: int|
            0 <= u < self.component_arrays@.len() implies #[trigger] self.component_arrays@[u].wf() by {
            if u != t {
                assert(self.component_arrays@[u] == old_arrays[u]);
            }
        }
        r
    }

    /// The component of type `t` of `entity`.
    pub fn get_component(&self, t: ComponentType, entity: EntityType) -> (r: Result<&C, EcsError>)
        requires
            self.wf(),
        ensures
            match r {
                Ok(v) => t < self.types().len() && self.store(t as int).contains_key(entity) && *v
                    == self.store(t as int)[entity],
                Err(e) => if t < self.types().len() {
                    !self.store(t as int).contains_key(entity) && e == EcsError::UnknownComponent
                } else {
                    e == EcsError::UnregisteredType
                },
            },
    {
        if t as usize >= self.component_arrays.len() {
            return Err(EcsError::UnregisteredType);
        }
        self.component_arrays[t as usize].get_data(entity)
    }

    /// Mutable access to the component of type `t` of `entity`.
    pub fn get_component_mut(&mut self, t: ComponentType, entity: EntityType) -> (r: Result<
        &mut C,
        EcsError,
    >)
        requires
            old(self).wf(),
        ensures
            match r {
                Ok(v) => {
                    &&& t < old(self).types().len()
                    &&& old(self).store(t as int).contains_key(entity)
                    &&& *v == old(self).store(t as int)[entity]
                    &&& final(self).wf()
                    &&& final(self).types() == old(self).types()
                    &&& final(self).store(t as int) == old(self).store(t as int).insert(entity, *final(v))
                    &&& final(self).store_count(t as int) == old(self).store_count(t as int)
                    &&& forall|u: int|
                        0 <= u < old(self).types().len() && u != t ==> #[trigger] final(self).store(u)
                            == old(self).store(u)
                    &&& forall|u: int|
                        0 <= u < old(self).types().len() ==> #[trigger] final(self).store_count(u)
                            == old(self).store_count(u)
                },
                Err(e) => {
                    &&& final(self).wf()
                    &&& final(self).types() == old(self).types()
                    &&& forall|u: int|
                        0 <= u < old(self).types().len() ==> #[trigger] final(self).store(u)
                            == old(self).store(u)
                    &&& forall|u: int|
                        0 <= u < old(self).types().len() ==> #[trigger] final(self).store_count(u)
                            == old(self).store_count(u)
                    &&& if t < old(self).types().len() {
                        !old(self).store(t as int).contains_key(entity) && e == EcsError::UnknownComponent
                    } else {
                        e == EcsError::UnregisteredType
                    }
                },
            },
    {
        if t as usize >= self.component_arrays.len() {
            return Err(EcsError::UnregisteredType);
        }
        self.component_arrays[t as usize].get_data_mut(entity)
    }

    /// Removes whatever any store holds for `entity`.
    pub fn entity_destroyed(&mut self, entity: EntityType)
        requires
            old(self).wf(),
        ensures
            final(self).wf(),
            final(self).types() == old(self).types(),
            forall|u: int|
                0 <= u < old(self).types().len() ==> #[trigger] final(self).store(u) == old(self).store(
                    u,
                ).remove(entity),
            forall|u: int|
                0 <= u < old(self).types().len() ==> #[trigger] final(self).store_count(u) == if old(
                    self,
                ).store(u).contains_key(entity) {
                    old(self).store_count(u) - 1
                } else {
                    old(self).store_count(u) as int
                },
    {
        let n = self.component_arrays.len();
        let mut i: usize = 0;
        while i < n
            invariant
                n == self.component_arrays@.len(),
                i <= n,
                self.wf(),
                self.types() == old(self).types(),
                forall|u: int| 0 <= u < i ==> #[trigger] self.store(u) == old(self).store(u).remove(entity),
                forall|u: int| i <= u < n ==> #[trigger] self.store(u) == old(self).store(u),
                forall|u: int| 0 <= u < i ==> #[trigger] self.store_count(u) == if old(self).store(u).contains_key(entity) {
                    old(self).store_count(u) - 1
                } else {
                    old(self).store_count(u) as int
                },
                forall|u: int| i <= u < n ==> #[trigger] self.store_count(u) == old(self).store_count(u),
            decreases n - i,
        {
            let ghost before = self.component_arrays@;
            let ghost head: Self = *self;
            self.component_arrays[i].discard(entity);
            assert forall|u: int|
                0 <= u < n && u != i implies #[trigger] self.component_arrays@[u] == before[u] by {}
            assert forall|u: int| 0 <= u < i + 1 implies #[trigger] self.store(u) == old(self).store(u).remove(entity) by {
                assert(head.store(u) == before[u]@);
                if u != i {
                    assert(self.component_arrays@[u] == before[u]);
                }
            }
            assert forall|u: int| 0 <= u < i + 1 implies #[trigger] self.store_count(u) == if old(self).store(u).contains_key(entity) {
                    old(self).store_count(u) - 1
                } else {
                    old(self).store_count(u) as int
                } by {
                assert(head.store(u) == before[u]@);
                assert(head.store_count(u) == before[u].count());
                if u != i {
                    assert(self.component_arrays@[u] == before[u]);
                }
            }
            assert forall|u: int| i + 1 <= u < n implies #[trigger] self.store_count(u) == old(self).store_count(u) by {
                assert(head.store_count(u) == before[u].count());
                assert(self.component_arrays@[u] == before[u]);
            }
            assert forall|u: int| i + 1 <= u < n implies #[trigger] self.store(u) == old(self).store(u) by {
                assert(head.store(u) == before[u]@);
                assert(self.component_arrays@[u] == before[u]);
            }
            i = i + 1;
        }
    }
}

} // verus!
