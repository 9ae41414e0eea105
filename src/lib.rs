//! An entity-component-system registry: entities drawn from a bounded pool,
//! densely packed per-type component stores, bit-set signatures, and systems
//! whose entity sets follow the signatures.
pub mod component;
pub mod component_manager;
pub mod config;
pub mod entity_manager;
pub mod signature;
pub mod singleton;
pub mod system;
pub mod system_manager;
pub mod type_key;
