use std::collections::HashMap;
use vstd::prelude::*;

use crate::config::{EcsError, EntityType, MAX_ENTITIES};

verus! {

broadcast use vstd::std_specs::hash::group_hash_axioms;

/// The hook that cascading entity destruction needs from a store of any
/// component type.
pub trait IComponent {
    /// The store's own consistency.
    spec fn inv(&self) -> bool;

    /// The entities that hold data in the store.
    spec fn entities(&self) -> Set<EntityType>;

    /// Forgets whatever the store holds for `entity`.
    fn entity_destroyed(&mut self, entity: EntityType)
        requires
            old(self).inv(),
        ensures
            final(self).inv(),
            final(self).entities() == old(self).entities().remove(entity),
    ;
}

/// Densely packed storage of the components of one type, addressed by
/// entity. Occupied slots are exactly `0..size`; the two maps are mutual
/// inverses on them.
pub struct ComponentArray<T> {
    component_array: Vec<Option<T>>,
    entity_to_index_map: HashMap<EntityType, usize>,
    index_to_entity_map: HashMap<usize, EntityType>,
    size: usize,
}

impl<T> View for ComponentArray<T> {
    type V = Map<EntityType, T>;

    /// Which entity holds which value.
    closed spec fn view(&self) -> Map<EntityType, T> {
        Map::new(
            |e: EntityType| self.entity_to_index_map@.contains_key(e),
            |e: EntityType| self.component_array@[self.entity_to_index_map@[e] as int]->Some_0,
        )
    }
}

impl<T> ComponentArray<T> {
    /// Number of occupied slots.
    pub closed spec fn count(&self) -> nat {
        self.size as nat
    }

    /// The storage is packed and its two index maps agree.
    pub closed spec fn wf(&self) -> bool {
        let e2i = self.entity_to_index_map@;
        let i2e = self.index_to_entity_map@;
        &&& self.component_array@.len() == MAX_ENTITIES
        &&& self.size <= MAX_ENTITIES
        &&& forall|i: usize| #[trigger] i2e.contains_key(i) <==> i < self.size
        &&& forall|i: usize|
            i < self.size ==> #[trigger] e2i.contains_key(i2e[i]) && e2i[i2e[i]] == i
        &&& forall|e: EntityType| #[trigger] e2i.contains_key(e) ==> e2i[e] < self.size && i2e[e2i[e]] == e
        &&& forall|i: int|
            0 <= i < MAX_ENTITIES ==> (#[trigger] self.component_array@[i] is Some <==> i < self.size)
        &&& e2i.dom().finite()
        &&& e2i.dom().len() == self.size
    }

    /// Where `entity`'s component sits in the dense storage.
    pub closed spec fn slot_of(&self, entity: EntityType) -> int {
        self.entity_to_index_map@[entity] as int
    }

    /// The entity whose component sits in slot `i`.
    pub closed spec fn entity_at(&self, i: int) -> EntityType {
        self.index_to_entity_map@[i as usize]
    }

    /// The dense storage, slot by slot.
    pub closed spec fn slots(&self) -> Seq<Option<T>> {
        self.component_array@
    }

    /// An empty store with room for one component per entity of the pool.
    pub fn new() -> (r: Self)
        ensures
            r.wf(),
            r@ == Map::<EntityType, T>::empty(),
            r.count() == 0,
    {
        let mut slots: Vec<Option<T>> = Vec::new();
        let mut k: usize = 0;
        while k < MAX_ENTITIES as usize
            invariant
                k <= MAX_ENTITIES,
                slots@.len() == k,
                forall|i: int| 0 <= i < k ==> #[trigger] slots@[i] is None,
            decreases MAX_ENTITIES - k,
        {
            slots.push(None);
            k = k + 1;
        }
        let r = ComponentArray {
            component_array: slots,
            entity_to_index_map: HashMap::new(),
            index_to_entity_map: HashMap::new(),
            size: 0,
        };
        assert(r@ =~= Map::<EntityType, T>::empty());
        r
    }

    /// Whether `entity` holds a component here.
    pub fn contains(&self, entity: EntityType) -> (r: bool)
        requires
            self.wf(),
        ensures
            r == self@.contains_key(entity),
    {
        self.entity_to_index_map.contains_key(&entity)
    }

    /// Number of occupied slots.
    pub fn len(&self) -> (r: usize)
        ensures
            r == self.count(),
    {
        self.size
    }

    /// Stores `component` for `entity` in the next free slot.
    pub fn insert_data(&mut self, entity: EntityType, component: T) -> (r: Result<(), EcsError>)
        requires
            old(self).wf(),
        ensures
            final(self).wf(),
            old(self)@.contains_key(entity) ==> r == Err::<(), EcsError>(EcsError::DuplicateComponent),
            !old(self)@.contains_key(entity) && old(self).count() == MAX_ENTITIES ==> r == Err::<(), EcsError>(
                EcsError::CapacityExceeded,
            ),
            !old(self)@.contains_key(entity) && old(self).count() < MAX_ENTITIES ==> r is Ok,
            r is Ok ==> final(self)@ == old(self)@.insert(entity, component) && final(self).count()
                == old(self).count() + 1,
            r is Ok ==> final(self).slot_of(entity) == old(self).count() && final(self).entity_at(
                old(self).count() as int,
            ) == entity,
            r is Ok ==> final(self).slots() == old(self).slots().update(
                old(self).count() as int,
                Some(component),
            ),
            r is Ok ==> forall|e: EntityType|
                #[trigger] old(self)@.contains_key(e) ==> final(self).slot_of(e) == old(self).slot_of(e),
            r is Ok ==> forall|i: int|
                0 <= i < old(self).count() ==> #[trigger] final(self).entity_at(i) == old(self).entity_at(i),
            r is Err ==> *final(self) == *old(self),
            r is Err ==> final(self)@ == old(self)@ && final(self).count() == old(self).count(),
    {
        if self.entity_to_index_map.contains_key(&entity) {
            return Err(EcsError::DuplicateComponent);
        }
        if self.size >= MAX_ENTITIES as usize {
            return Err(EcsError::CapacityExceeded);
        }
        let new_index = self.size;
        self.entity_to_index_map.insert(entity, new_index);
        self.index_to_entity_map.insert(new_index, entity);
        self.component_array.set(new_index, Some(component));
        self.size = self.size + 1;
        assert(self@ =~= old(self)@.insert(entity, component));
        assert(self.entity_to_index_map@.dom() =~= old(self).entity_to_index_map@.dom().insert(entity));
        Ok(())
    }

    /// The component of `entity`.
    pub fn get_data(&self, entity: EntityType) -> (r: Result<&T, EcsError>)
        requires
            self.wf(),
        ensures
            match r {
                Ok(v) => self@.contains_key(entity) && *v == self@[entity],
                Err(e) => !self@.contains_key(entity) && e == EcsError::UnknownComponent,
            },
    {
        match self.entity_to_index_map.get(&entity) {
            Some(idx) => {
                let i = *idx;
                match &self.component_array[i] {
                    Some(v) => Ok(v),
                    None => Err(EcsError::UnknownComponent),
                }
            },
            None => Err(EcsError::UnknownComponent),
        }
    }

    /// Takes the component of `entity` out, moving the last occupied slot
    /// into the freed one so that the storage stays packed.
    pub fn remove_data(&mut self, entity: EntityType) -> (r: Result<(), EcsError>)
        requires
            old(self).wf(),
        ensures
            final(self).wf(),
            r is Ok <==> old(self)@.contains_key(entity),
            r is Ok ==> final(self)@ == old(self)@.remove(entity) && final(self).count()
                == old(self).count() - 1,
            r is Ok ==> {
                let i = old(self).slot_of(entity);
                let last = old(self).count() - 1;
                let moved = old(self).entity_at(last);
                &&& i != last ==> final(self).slot_of(moved) == i && final(self).entity_at(i) == moved
                    && final(self).slots() == old(self).slots().update(i, old(self).slots()[last]).update(
                    last,
                    None,
                )
                &&& i == last ==> final(self).slots() == old(self).slots().update(last, None)
                &&& forall|e: EntityType|
                    #[trigger] final(self)@.contains_key(e) && e != moved ==> final(self).slot_of(e)
                        == old(self).slot_of(e)
            },
            r is Err ==> r == Err::<(), EcsError>(EcsError::UnknownComponent) && *final(self) == *old(self),
            r is Err ==> final(self)@ == old(self)@ && final(self).count() == old(self).count(),
    {
        let idx = match self.entity_to_index_map.get(&entity) {
            Some(i) => *i,
            None => return Err(EcsError::UnknownComponent),
        };
        let last = self.size - 1;
        if idx != last {
            let mut moved: Option<T> = None;
            self.component_array.set_and_swap(last, &mut moved);
            self.component_array.set(idx, moved);
            let moved_entity = match self.index_to_entity_map.get(&last) {
                Some(e) => *e,
                None => vstd::pervasive::unreached(),
            };
            self.entity_to_index_map.insert(moved_entity, idx);
            self.index_to_entity_map.insert(idx, moved_entity);
        } else {
            self.component_array.set(last, None);
        }
        self.entity_to_index_map.remove(&entity);
        self.index_to_entity_map.remove(&last);
        self.size = last;
        assert(self@ =~= old(self)@.remove(entity));
        assert(self.entity_to_index_map@.dom() =~= old(self).entity_to_index_map@.dom().remove(entity));
        Ok(())
    }

    /// Mutable access to the component of `entity`.
    pub fn get_data_mut(&mut self, entity: EntityType) -> (r: Result<&mut T, EcsError>)
        requires
            old(self).wf(),
        ensures
            match r {
                Ok(v) => {
                    &&& old(self)@.contains_key(entity)
                    &&& *v == old(self)@[entity]
                    &&& final(self).wf()
                    &&& final(self)@ == old(self)@.insert(entity, *final(v))
                    &&& final(self).count() == old(self).count()
                    &&& final(self).slots() == old(self).slots().update(
                        old(self).slot_of(entity),
                        Some(*final(v)),
                    )
                    &&& forall|x: EntityType| #[trigger] final(self).slot_of(x) == old(self).slot_of(x)
                    &&& forall|i: int| #[trigger] final(self).entity_at(i) == old(self).entity_at(i)
                },
                Err(e) => {
                    &&& !old(self)@.contains_key(entity)
                    &&& e == EcsError::UnknownComponent
                    &&& *final(self) == *old(self)
                },
            },
    {
        let i = match self.entity_to_index_map.get(&entity) {
            Some(idx) => *idx,
            None => return Err(EcsError::UnknownComponent),
        };
        match self.component_array[i].as_mut() {
            Some(v) => Ok(v),
            None => Err(EcsError::UnknownComponent),
        }
    }

    /// The dense storage: occupied slots first, each holding the component
    /// of the entity mapped to it.
    pub fn get_components(&self) -> (r: &Vec<Option<T>>)
        requires
            self.wf(),
        ensures
            r@ == self.slots(),
            r@.len() == MAX_ENTITIES,
            self.count() == self@.dom().len(),
            forall|e1: EntityType, e2: EntityType|
                #[trigger] self@.contains_key(e1) && #[trigger] self@.contains_key(e2) && e1 != e2
                    ==> self.slot_of(e1) != self.slot_of(e2),
            forall|i: int| 0 <= i < MAX_ENTITIES ==> (#[trigger] r@[i] is Some <==> i < self.count()),
            forall|e: EntityType|
                #[trigger] self@.contains_key(e) ==> 0 <= self.slot_of(e) < self.count() && r@[self.slot_of(
                    e,
                )] == Some(self@[e]),
    {
        assert(self@.dom() =~= self.entity_to_index_map@.dom());
        &self.component_array
    }

    /// Removes the component of `entity` if it has one.
    pub fn discard(&mut self, entity: EntityType)
        requires
            old(self).wf(),
        ensures
            final(self).wf(),
            final(self)@ == old(self)@.remove(entity),
            old(self)@.contains_key(entity) ==> final(self).count() == old(self).count() - 1,
            !old(self)@.contains_key(entity) ==> final(self).count() == old(self).count(),
    {
        if self.entity_to_index_map.contains_key(&entity) {
            let _ = self.remove_data(entity);
        } else {
            assert(old(self)@.remove(entity) =~= old(self)@);
        }
    }

    /// A value stored for `e` stays there, unchanged, across an insert or a
    /// removal for another entity: together with `insert_data`'s contract,
    /// reading `e` back after such calls gives the value inserted.
    pub proof fn lemma_other_changes_keep_value(
        pre: Map<EntityType, T>,
        post: Map<EntityType, T>,
        e: EntityType,
        x: EntityType,
        v: T,
    )
        requires
            pre.contains_key(e),
            x != e,
            post == pre.insert(x, v) || post == pre.remove(x),
        ensures
            post.contains_key(e),
            post[e] == pre[e],
    {
    }
}

impl<T> IComponent for ComponentArray<T> {
    open spec fn inv(&self) -> bool {
        self.wf()
    }

    open spec fn entities(&self) -> Set<EntityType> {
        self@.dom()
    }

    fn entity_destroyed(&mut self, entity: EntityType) {
        self.discard(entity);
    }
}

} // verus!
