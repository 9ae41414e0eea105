use std::collections::HashSet;
use vstd::prelude::*;

use crate::config::EntityType;

verus! {

broadcast use vstd::std_specs::hash::group_hash_axioms;

/// The entities a system is interested in.
pub struct System {
    pub entities: HashSet<EntityType>,
}

impl View for System {
    type V = Set<EntityType>;

    open spec fn view(&self) -> Set<EntityType> {
        self.entities@
    }
}

impl System {
    /// A system with no entities.
    pub fn new() -> (r: System)
        ensures
            r@ == Set::<EntityType>::empty(),
    {
        System { entities: HashSet::new() }
    }

    /// Whether `entity` belongs to the system.
    pub fn contains(&self, entity: EntityType) -> (r: bool)
        ensures
            r == self@.contains(entity),
    {
        self.entities.contains(&entity)
    }

    /// Adds `entity` to the system.
    pub fn insert(&mut self, entity: EntityType)
        ensures
            final(self)@ == old(self)@.insert(entity),
    {
        self.entities.insert(entity);
    }

    /// Takes `entity` out of the system.
    pub fn remove(&mut self, entity: EntityType)
        ensures
            final(self)@ == old(self)@.remove(entity),
    {
        self.entities.remove(&entity);
    }

    /// Empties the system.
    pub fn clear(&mut self)
        ensures
            final(self)@ == Set::<EntityType>::empty(),
    {
        self.entities.clear();
    }

    /// Hands the system to `f`.
    pub fn run_system<F: Fn(&System)>(&self, f: F)
        requires
            f.requires((self,)),
        ensures
            f.ensures((self,), ()),
    {
        f(self);
    }
}

/// A marker for a physics system.
pub struct Physics {}

} // verus!
