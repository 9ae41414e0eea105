use vstd::prelude::*;

verus! {

/// Index of a registered component type; also the bit it owns in a signature.
pub type ComponentType = u32;

/// Handle of an entity.
pub type EntityType = u32;

/// Size of the entity pool of a default registry.
pub const MAX_ENTITIES: EntityType = 5000;

/// Number of distinct component types; the width of a signature.
pub const MAX_COMPONENTS: ComponentType = 32;

/// Everything that can go wrong in a call on the registries.
#[derive(Debug, Clone, Copy, PartialEq, Eq, Structural)]
pub enum EcsError {
    /// The entity pool, a component store or the set of component types is
    /// full.
    CapacityExceeded,
    /// A component or system type was registered twice.
    DuplicateRegistration,
    /// The entity already holds a component of that type.
    DuplicateComponent,
    /// The entity was never created or has been destroyed.
    UnknownEntity,
    /// The entity holds no component of that type.
    UnknownComponent,
    /// The component or system type was never registered.
    UnregisteredType,
}

} // verus!
