use std::any::TypeId;

use ecs::component::ComponentArray;
use ecs::component_manager::ComponentManager;
use ecs::config::{EcsError, EntityType, MAX_ENTITIES};

#[derive(Debug, PartialEq)]
struct TestComponent {
    data: i32,
}

#[test]
fn test_register_component() {
    let mut manager: ComponentManager<TestComponent> = ComponentManager::new();
    let key = TypeId::of::<TestComponent>();
    assert_eq!(manager.register_component(key), Ok(0));

    assert!(manager.get_component_type(key).is_ok());
    assert!(manager.get_component_array(key).is_ok());
}

#[test]
fn test_add_and_get_component() {
    let mut manager: ComponentManager<TestComponent> = ComponentManager::new();
    let key = TypeId::of::<TestComponent>();
    let t = manager.register_component(key).unwrap();

    let entity: EntityType = 1;
    let component = TestComponent { data: 42 };

    manager.add_component(t, entity, component).unwrap();

    let array = manager.get_component_array(key).unwrap();
    let mut numbers_of_entries = 0;
    for correct in array.get_components().iter() {
        if let Some(_) = correct {
            numbers_of_entries += 1;
        }
    }
    assert_eq!(numbers_of_entries, 1);
    assert_eq!(manager.get_component(t, entity).unwrap().data, 42);
}

#[test]
fn duplicate_component_type_is_refused() {
    let mut manager: ComponentManager<TestComponent> = ComponentManager::new();
    let key = TypeId::of::<TestComponent>();
    assert_eq!(manager.register_component(key), Ok(0));
    assert_eq!(manager.register_component(key), Err(EcsError::DuplicateRegistration));
    assert_eq!(manager.register_component(TypeId::of::<u8>()), Ok(1));
    assert_eq!(manager.get_component_type(TypeId::of::<u8>()), Ok(1));
    assert_eq!(manager.get_component_type(TypeId::of::<u16>()), Err(EcsError::UnregisteredType));
}

#[test]
fn component_types_are_bounded_by_signature_width() {
    let mut manager: ComponentManager<TestComponent> = ComponentManager::new();
    let keys = [
        TypeId::of::<u8>(), TypeId::of::<u16>(), TypeId::of::<u32>(), TypeId::of::<u64>(),
        TypeId::of::<i8>(), TypeId::of::<i16>(), TypeId::of::<i32>(), TypeId::of::<i64>(),
        TypeId::of::<(u8,)>(), TypeId::of::<(u16,)>(), TypeId::of::<(u32,)>(), TypeId::of::<(u64,)>(),
        TypeId::of::<(i8,)>(), TypeId::of::<(i16,)>(), TypeId::of::<(i32,)>(), TypeId::of::<(i64,)>(),
        TypeId::of::<[u8; 1]>(), TypeId::of::<[u16; 1]>(), TypeId::of::<[u32; 1]>(), TypeId::of::<[u64; 1]>(),
        TypeId::of::<[i8; 1]>(), TypeId::of::<[i16; 1]>(), TypeId::of::<[i32; 1]>(), TypeId::of::<[i64; 1]>(),
        TypeId::of::<Option<u8>>(), TypeId::of::<Option<u16>>(), TypeId::of::<Option<u32>>(), TypeId::of::<Option<u64>>(),
        TypeId::of::<Option<i8>>(), TypeId::of::<Option<i16>>(), TypeId::of::<Option<i32>>(), TypeId::of::<Option<i64>>(),
    ];
    for (i, k) in keys.iter().enumerate() {
        assert_eq!(manager.register_component(*k), Ok(i as u32));
    }
    assert_eq!(manager.register_component(TypeId::of::<bool>()), Err(EcsError::CapacityExceeded));
}

#[test]
fn swap_remove_keeps_other_components() {
    let mut array: ComponentArray<i32> = ComponentArray::new();
    array.insert_data(10, 100).unwrap();
    array.insert_data(11, 110).unwrap();
    array.insert_data(12, 120).unwrap();
    assert_eq!(array.len(), 3);

    array.remove_data(10).unwrap();
    assert_eq!(array.len(), 2);
    assert_eq!(array.get_data(10), Err(EcsError::UnknownComponent));
    assert_eq!(array.get_data(11), Ok(&110));
    assert_eq!(array.get_data(12), Ok(&120));
    // the last slot moved into the freed one
    assert_eq!(array.get_components()[0], Some(120));
    assert_eq!(array.get_components()[1], Some(110));
    assert_eq!(array.get_components()[2], None);

    array.remove_data(11).unwrap();
    assert_eq!(array.len(), 1);
    assert_eq!(array.get_data(12), Ok(&120));
    assert_eq!(array.remove_data(11), Err(EcsError::UnknownComponent));
}

#[test]
fn removing_the_last_slot_leaves_no_hole() {
    let mut array: ComponentArray<i32> = ComponentArray::new();
    array.insert_data(1, 5).unwrap();
    array.insert_data(2, 6).unwrap();
    array.remove_data(2).unwrap();
    assert_eq!(array.get_components()[0], Some(5));
    assert_eq!(array.get_components()[1], None);
    array.insert_data(3, 7).unwrap();
    assert_eq!(array.get_components()[1], Some(7));
}

#[test]
fn duplicate_component_is_refused() {
    let mut array: ComponentArray<i32> = ComponentArray::new();
    array.insert_data(4, 1).unwrap();
    assert_eq!(array.insert_data(4, 2), Err(EcsError::DuplicateComponent));
    assert_eq!(array.get_data(4), Ok(&1));
}

#[test]
fn full_store_is_refused() {
    let mut array: ComponentArray<u32> = ComponentArray::new();
    for e in 0..MAX_ENTITIES {
        array.insert_data(e, e).unwrap();
    }
    assert_eq!(array.insert_data(MAX_ENTITIES, 0), Err(EcsError::CapacityExceeded));
    assert_eq!(array.len(), MAX_ENTITIES as usize);
}

#[test]
fn component_can_be_changed_in_place() {
    let mut array: ComponentArray<i32> = ComponentArray::new();
    array.insert_data(3, 1).unwrap();
    *array.get_data_mut(3).unwrap() += 41;
    assert_eq!(array.get_data(3), Ok(&42));
    assert_eq!(array.get_data_mut(4), Err(EcsError::UnknownComponent));
}

#[test]
fn destroyed_entity_leaves_every_store() {
    let mut manager: ComponentManager<i32> = ComponentManager::new();
    let a = manager.register_component(TypeId::of::<u8>()).unwrap();
    let b = manager.register_component(TypeId::of::<u16>()).unwrap();
    manager.add_component(a, 1, 10).unwrap();
    manager.add_component(b, 1, 20).unwrap();
    manager.add_component(b, 2, 30).unwrap();
    manager.entity_destroyed(1);
    assert_eq!(manager.get_component(a, 1), Err(EcsError::UnknownComponent));
    assert_eq!(manager.get_component(b, 1), Err(EcsError::UnknownComponent));
    assert_eq!(manager.get_component(b, 2), Ok(&30));
    assert_eq!(manager.get_component(7, 2), Err(EcsError::UnregisteredType));
}
