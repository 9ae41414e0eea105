use std::any::TypeId;

use ecs::component::{ComponentArray, IComponent};
use ecs::config::{EcsError, EntityType};
use ecs::entity_manager::EntityManager;
use ecs::signature::Signature;
use ecs::singleton::EcsSingleton;
use ecs::system::System;
use ecs::system_manager::SystemManager;

#[derive(Debug, Clone, Copy, PartialEq)]
struct Vec3 {
    x: f32,
    y: f32,
    z: f32,
}

impl Vec3 {
    fn new(x: f32, y: f32, z: f32) -> Self {
        Vec3 { x, y, z }
    }
}

struct Transform;
struct RigidBody;
struct Physics;

#[derive(Debug, Clone, Copy, PartialEq)]
enum Part {
    Transform { position: Vec3 },
    RigidBody { force: Vec3 },
}

#[test]
fn test_register_entity_to_singleton() {
    let mut singleton: EcsSingleton<Part> = EcsSingleton::new();
    singleton.register_component(TypeId::of::<Transform>()).unwrap();
    singleton.register_component(TypeId::of::<RigidBody>()).unwrap();

    let entity = singleton.create_entity().unwrap();

    let force = Vec3::new(1.0, 1.0, 1.0);
    singleton.add_component(TypeId::of::<RigidBody>(), entity, Part::RigidBody { force }).unwrap();
    let position = Vec3::new(1.0, 0.0, 1.0);
    singleton.add_component(TypeId::of::<Transform>(), entity, Part::Transform { position }).unwrap();
    let rigid_body = singleton.get_component(TypeId::of::<RigidBody>(), entity).unwrap();
    let transform_component = singleton.get_component(TypeId::of::<Transform>(), entity).unwrap();

    assert_eq!(*transform_component, Part::Transform { position });
    assert_eq!(*rigid_body, Part::RigidBody { force });
}

fn process(singleton: &mut EcsSingleton<Part>, members: &[EntityType]) {
    for entity in members {
        if let Ok(Part::Transform { position }) = singleton.get_component_mut(TypeId::of::<Transform>(), *entity) {
            position.x += 1.0;
        }
        if let Ok(Part::RigidBody { force }) = singleton.get_component_mut(TypeId::of::<RigidBody>(), *entity) {
            force.x += 1.0;
        }
    }
}

fn members_of(system: &System) -> Vec<EntityType> {
    system.entities.iter().copied().collect()
}

#[test]
fn test_register_system() {
    let mut singleton: EcsSingleton<Part> = EcsSingleton::new();
    singleton.register_component(TypeId::of::<Transform>()).unwrap();
    singleton.register_component(TypeId::of::<RigidBody>()).unwrap();

    singleton.register_system(TypeId::of::<Physics>()).unwrap();

    let mut signature = Signature::new();
    signature.insert(singleton.get_component_type(TypeId::of::<Transform>()).unwrap());
    signature.insert(singleton.get_component_type(TypeId::of::<RigidBody>()).unwrap());
    singleton.set_system_signature(TypeId::of::<Physics>(), signature).unwrap();

    let entity = singleton.create_entity().unwrap();

    let force = Vec3::new(1.0, 1.0, 1.0);
    singleton.add_component(TypeId::of::<RigidBody>(), entity, Part::RigidBody { force }).unwrap();
    let position = Vec3::new(1.0, 0.0, 1.0);
    singleton.add_component(TypeId::of::<Transform>(), entity, Part::Transform { position }).unwrap();

    let transform_component = singleton.get_component(TypeId::of::<Transform>(), entity).unwrap();
    assert_eq!(*transform_component, Part::Transform { position });
    let rigid_body = singleton.get_component(TypeId::of::<RigidBody>(), entity).unwrap();
    assert_eq!(*rigid_body, Part::RigidBody { force });

    let members = members_of(singleton.get_system(TypeId::of::<Physics>()).unwrap());
    process(&mut singleton, &members);

    let transform_component = singleton.get_component(TypeId::of::<Transform>(), entity).unwrap();
    assert_eq!(*transform_component, Part::Transform { position: Vec3::new(2.0, 0.0, 1.0) });
    let rigid_body = singleton.get_component(TypeId::of::<RigidBody>(), entity).unwrap();
    assert_eq!(*rigid_body, Part::RigidBody { force: Vec3::new(2.0, 1.0, 1.0) });
}

struct Position;
struct Velocity;
struct Movement;

#[test]
fn movement_follows_position_and_velocity() {
    let mut world: EcsSingleton<i32> = EcsSingleton::new();
    assert_eq!(world.register_component(TypeId::of::<Position>()), Ok(0));
    assert_eq!(world.register_component(TypeId::of::<Velocity>()), Ok(1));
    let movement = TypeId::of::<Movement>();
    assert_eq!(world.register_system(movement), Ok(movement));
    let mut required = Signature::new();
    required.insert(0);
    required.insert(1);
    world.set_system_signature(movement, required).unwrap();

    let e = world.create_entity().unwrap();
    world.add_component(TypeId::of::<Position>(), e, 0).unwrap();
    assert_eq!(world.is_interested(movement, e), Ok(false));
    world.add_component(TypeId::of::<Velocity>(), e, 1).unwrap();
    assert_eq!(world.is_interested(movement, e), Ok(true));
    world.remove_component(TypeId::of::<Position>(), e).unwrap();
    assert_eq!(world.is_interested(movement, e), Ok(false));
    assert_eq!(world.get_component(TypeId::of::<Position>(), e), Err(EcsError::UnknownComponent));
    assert_eq!(world.get_component(TypeId::of::<Velocity>(), e), Ok(&1));
}

#[test]
fn pool_of_two_refuses_a_third_entity() {
    let mut world: EcsSingleton<i32> = EcsSingleton::with_capacity(2);
    let a = world.create_entity().unwrap();
    let b = world.create_entity().unwrap();
    assert_ne!(a, b);
    assert_eq!(world.create_entity(), Err(EcsError::CapacityExceeded));
    world.destroy_entity(a).unwrap();
    assert_eq!(world.create_entity(), Ok(a));
}

#[test]
fn destroyed_entity_is_reused_clean() {
    let mut world: EcsSingleton<i32> = EcsSingleton::with_capacity(1);
    world.register_component(TypeId::of::<Position>()).unwrap();
    let all = TypeId::of::<Movement>();
    world.register_system(all).unwrap();
    let mut required = Signature::new();
    required.insert(0);
    world.set_system_signature(all, required).unwrap();

    let e = world.create_entity().unwrap();
    world.add_component(TypeId::of::<Position>(), e, 5).unwrap();
    assert_eq!(world.is_interested(all, e), Ok(true));
    world.destroy_entity(e).unwrap();
    assert_eq!(world.is_interested(all, e), Ok(false));
    assert_eq!(world.destroy_entity(e), Err(EcsError::UnknownEntity));

    let again = world.create_entity().unwrap();
    assert_eq!(again, e);
    assert_eq!(world.get_component(TypeId::of::<Position>(), again), Err(EcsError::UnknownComponent));
    assert_eq!(world.is_interested(all, again), Ok(false));
}

#[test]
fn late_system_signature_rescans_entities() {
    let mut world: EcsSingleton<i32> = EcsSingleton::new();
    world.register_component(TypeId::of::<Position>()).unwrap();
    let e = world.create_entity().unwrap();
    let f = world.create_entity().unwrap();
    world.add_component(TypeId::of::<Position>(), e, 3).unwrap();
    let movement = TypeId::of::<Movement>();
    world.register_system(movement).unwrap();
    assert_eq!(world.is_interested(movement, e), Ok(false));
    let mut required = Signature::new();
    required.insert(0);
    world.set_system_signature(movement, required).unwrap();
    assert_eq!(world.is_interested(movement, e), Ok(true));
    assert_eq!(world.is_interested(movement, f), Ok(false));
}

#[test]
fn misuse_is_reported() {
    let mut world: EcsSingleton<i32> = EcsSingleton::new();
    let position = TypeId::of::<Position>();
    assert_eq!(world.add_component(position, 0, 1), Err(EcsError::UnregisteredType));
    world.register_component(position).unwrap();
    assert_eq!(world.register_component(position), Err(EcsError::DuplicateRegistration));
    assert_eq!(world.add_component(position, 0, 1), Err(EcsError::UnknownEntity));
    let e = world.create_entity().unwrap();
    world.add_component(position, e, 1).unwrap();
    assert_eq!(world.add_component(position, e, 2), Err(EcsError::DuplicateComponent));
    assert_eq!(world.get_component(position, e), Ok(&1));
    world.remove_component(position, e).unwrap();
    assert_eq!(world.remove_component(position, e), Err(EcsError::UnknownComponent));
    let movement = TypeId::of::<Movement>();
    assert_eq!(world.set_system_signature(movement, Signature::new()), Err(EcsError::UnregisteredType));
    assert!(world.get_system(movement).is_err());
    world.register_system(movement).unwrap();
    assert_eq!(world.register_system(movement), Err(EcsError::DuplicateRegistration));
}

#[test]
fn empty_requirement_takes_every_live_entity() {
    let mut world: EcsSingleton<i32> = EcsSingleton::new();
    let all = TypeId::of::<Movement>();
    world.register_system(all).unwrap();
    world.set_system_signature(all, Signature::new()).unwrap();
    let e = world.create_entity().unwrap();
    assert_eq!(world.is_interested(all, e), Ok(true));
}

#[test]
fn free_handles_are_reused_in_order() {
    let mut entities = EntityManager::with_capacity(3);
    assert_eq!(entities.create_entity(), Ok(0));
    assert_eq!(entities.create_entity(), Ok(1));
    entities.destroy_entity(0).unwrap();
    assert_eq!(entities.create_entity(), Ok(2));
    assert_eq!(entities.create_entity(), Ok(0));
    assert_eq!(entities.create_entity(), Err(EcsError::CapacityExceeded));
    assert_eq!(entities.destroy_entity(7), Err(EcsError::UnknownEntity));
}

#[test]
fn entity_signatures_are_kept_per_entity() {
    let mut entities = EntityManager::create();
    let e = entities.create_entity().unwrap();
    assert!(entities.get_signature(e).unwrap().is_subset(&Signature::new()));
    let mut sig = Signature::new();
    sig.insert(3);
    entities.set_signature(e, sig).unwrap();
    assert!(entities.get_signature(e).unwrap().contains(3));
    entities.remove_signature(e).unwrap();
    assert!(!entities.get_signature(e).unwrap().contains(3));
    assert!(entities.get_signature(e + 1).is_err());
}

#[test]
fn signature_subset_and_membership() {
    let mut a = Signature::new();
    let mut b = Signature::new();
    assert!(a.insert(1));
    assert!(!a.insert(1));
    b.insert(1);
    b.insert(4);
    assert!(a.is_subset(&b));
    assert!(!b.is_subset(&a));
    assert!(b.contains(4));
    assert!(!b.contains(2));
    assert!(b.remove(4));
    assert!(!b.remove(4));
    assert!(b.is_subset(&a));
    let c = b.copied();
    assert!(c.contains(1) && c.is_subset(&b) && b.is_subset(&c));
}

#[test]
fn system_manager_follows_signature_changes() {
    let mut systems = SystemManager::new();
    let movement = TypeId::of::<Movement>();
    let physics = TypeId::of::<Physics>();
    assert_eq!(systems.register_system(movement), Ok(movement));
    assert_eq!(systems.register_system_func(physics), Ok(physics));
    assert_eq!(systems.register_system_func(physics), Err(EcsError::DuplicateRegistration));
    let mut needs_zero = Signature::new();
    needs_zero.insert(0);
    systems.set_signatures(movement, needs_zero).unwrap();

    let mut held = Signature::new();
    held.insert(0);
    held.insert(5);
    systems.entity_signature_changed(9, &held);
    assert!(systems.get_system(movement).unwrap().contains(9));
    // a system without a signature takes nobody
    assert!(!systems.get_system(physics).unwrap().contains(9));

    systems.entity_signature_changed(9, &Signature::new());
    assert!(!systems.get_system(movement).unwrap().contains(9));

    systems.entity_signature_changed(9, &held);
    systems.entity_destroyed(9);
    assert!(!systems.get_system(movement).unwrap().contains(9));
}

#[test]
fn run_system_hands_over_the_members() {
    let mut world: EcsSingleton<i32> = EcsSingleton::new();
    let all = TypeId::of::<Movement>();
    world.register_system(all).unwrap();
    world.set_system_signature(all, Signature::new()).unwrap();
    world.create_entity().unwrap();
    world.create_entity().unwrap();
    let seen = std::cell::Cell::new(0usize);
    world.get_system(all).unwrap().run_system(|s: &System| seen.set(s.entities.len()));
    assert_eq!(seen.get(), 2);
}

#[test]
fn store_hook_drops_an_entity() {
    let mut array: ComponentArray<i32> = ComponentArray::new();
    array.insert_data(1, 10).unwrap();
    array.insert_data(2, 20).unwrap();
    array.entity_destroyed(1);
    array.entity_destroyed(1);
    assert!(!array.contains(1));
    assert_eq!(array.get_data(2), Ok(&20));
    assert_eq!(array.len(), 1);
}
