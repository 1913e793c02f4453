use bevy::ecs::entity::{Entity, EntityMap};
use bevy_save::{
    DespawnMode, EntityReferences, MapEntities, MapEntitiesError, MapWith,
    RawSnapshot, Rollback, SaveableEntity, SaveableError, TypeRegistration, TypedValue, World,
};

fn entity_map(pairs: &[(u32, u32)]) -> EntityMap {
    let mut map = EntityMap::default();
    for &(from, to) in pairs {
        map.insert(Entity::from_raw(from), Entity::from_raw(to));
    }
    map
}

fn ids(list: &[u32]) -> Vec<u8> {
    list.iter().flat_map(|id| id.to_le_bytes()).collect()
}

fn references(name: &str, strict: bool) -> TypeRegistration {
    TypeRegistration {
        name: name.to_string(),
        resource: true,
        component: true,
        map_entities: Some(Box::new(EntityReferences::new(strict))),
    }
}

#[test]
fn entity_references_replace_mapped_identities() {
    let map = entity_map(&[(1, 10), (3, 30)]);
    let lenient = EntityReferences::new(false);
    let mut data = ids(&[1, 2, 3]);
    data.push(0xAB);
    let mut expected = ids(&[10, 2, 30]);
    expected.push(0xAB);
    assert_eq!(lenient.map_entities(&data, &map), Ok(expected));

    let strict = EntityReferences::new(true);
    assert_eq!(strict.map_entities(&data, &map), Err(MapEntitiesError::EntityNotFound(2)));
    assert_eq!(strict.map_entities(&ids(&[3, 1]), &map), Ok(ids(&[30, 10])));
}

#[test]
fn entity_references_keep_everything_under_an_empty_map() {
    let lenient = EntityReferences::new(false);
    let data = vec![1, 2, 3, 4, 5, 6, 7];
    assert_eq!(lenient.map_entities(&data, &EntityMap::default()), Ok(data.clone()));
    assert_eq!(lenient.map_entities(&Vec::new(), &EntityMap::default()), Ok(Vec::new()));
}

#[test]
fn scene_rewrites_the_resource_and_every_component_of_the_type() {
    let mut world = World::new();
    let first = world.scene.spawn_empty();
    let second = world.scene.spawn_empty();
    world.scene.insert_component(first, TypedValue::new("Parent", ids(&[7])));
    world.scene.insert_component(first, TypedValue::new("Name", ids(&[7])));
    world.scene.insert_component(second, TypedValue::new("Parent", ids(&[8])));
    world.scene.insert_resource(TypedValue::new("Parent", ids(&[7, 8])));

    let map = entity_map(&[(7, 0)]);
    let reg = references("Parent", false);
    assert_eq!(world.scene.map_entities(&reg, &map), Ok(()));
    assert_eq!(world.scene.resource(&"Parent".to_string()).unwrap().data, ids(&[0, 8]));
    let entities = world.scene.entities();
    assert_eq!(entities[0].components[0].data, ids(&[0]));
    assert_eq!(entities[0].components[1].data, ids(&[7]));
    assert_eq!(entities[1].components[0].data, ids(&[8]));
}

#[test]
fn scene_rewriting_stops_at_the_first_failure() {
    let mut world = World::new();
    for _ in 0..3 {
        world.scene.spawn_empty();
    }
    world.scene.insert_component(0, TypedValue::new("Parent", ids(&[1])));
    world.scene.insert_component(1, TypedValue::new("Parent", ids(&[5])));
    world.scene.insert_component(2, TypedValue::new("Parent", ids(&[1])));
    let map = entity_map(&[(1, 2)]);
    let reg = references("Parent", true);
    assert_eq!(world.scene.map_entities(&reg, &map), Err(MapEntitiesError::EntityNotFound(5)));
    let entities = world.scene.entities();
    assert_eq!(entities[0].components[0].data, ids(&[2]));
    assert_eq!(entities[1].components[0].data, ids(&[5]));
    assert_eq!(entities[2].components[0].data, ids(&[1]));
}

#[test]
fn apply_rewrites_references_with_the_entity_map() {
    let mut world = World::new();
    world.registry.register(references("Parent", false));
    world.scene.spawn_empty();
    world.scene.spawn_empty();
    let map = entity_map(&[(40, 0), (41, 1)]);
    let rollback = Rollback {
        snapshot: RawSnapshot {
            resources: vec![TypedValue::new("Parent", ids(&[41]))],
            entities: vec![
                SaveableEntity { entity: 40, components: Vec::new() },
                SaveableEntity {
                    entity: 41,
                    components: vec![TypedValue::new("Parent", ids(&[40]))],
                },
            ],
        },
    };
    let res = rollback.applier(&mut world).map(map).despawn(DespawnMode::<()>::Unmapped).apply();
    assert_eq!(res, Ok(()));
    assert_eq!(world.scene.resource(&"Parent".to_string()).unwrap().data, ids(&[1]));
    assert_eq!(world.scene.entity(1).unwrap().components[0].data, ids(&[0]));
}

#[test]
fn apply_reports_a_failed_rewrite() {
    let mut world = World::new();
    world.registry.register(references("Parent", true));
    world.scene.spawn_empty();
    let map = entity_map(&[(40, 0)]);
    let rollback = Rollback {
        snapshot: RawSnapshot {
            resources: Vec::new(),
            entities: vec![SaveableEntity {
                entity: 40,
                components: vec![TypedValue::new("Parent", ids(&[99]))],
            }],
        },
    };
    let res = rollback.applier(&mut world).map(map).apply();
    assert_eq!(
        res,
        Err(SaveableError::MapEntitiesError(MapEntitiesError::EntityNotFound(99)))
    );
    assert_eq!(world.scene.entity(0).unwrap().components[0].data, ids(&[99]));
}

#[test]
fn a_function_of_the_caller_rewrites_through_the_registry() {
    let mut world = World::new();
    let reversing = MapWith::new(|data: &Vec<u8>, _map: &EntityMap| {
        Ok::<Vec<u8>, MapEntitiesError>(data.iter().rev().cloned().collect())
    });
    world.registry.register(TypeRegistration {
        name: "Word".to_string(),
        resource: true,
        component: false,
        map_entities: Some(Box::new(reversing)),
    });
    let rollback = Rollback {
        snapshot: RawSnapshot {
            resources: vec![TypedValue::new("Word", vec![1, 2, 3])],
            entities: Vec::new(),
        },
    };
    assert_eq!(rollback.apply(&mut world), Ok(()));
    // Rewritten once after the resource was inserted and once more at the end.
    assert_eq!(world.scene.resource(&"Word".to_string()).unwrap().data, vec![1, 2, 3]);

    let reg = world.registry.get_with_name(&"Word".to_string()).unwrap();
    let mapper = reg.map_entities.as_ref().unwrap();
    assert_eq!(mapper.map_entities(&vec![1, 2, 3], &EntityMap::default()), Ok(vec![3, 2, 1]));
}

#[test]
fn a_failing_function_of_the_caller_ends_the_apply() {
    let mut world = World::new();
    let failing = MapWith::new(|_data: &Vec<u8>, _map: &EntityMap| {
        Err::<Vec<u8>, MapEntitiesError>(MapEntitiesError::EntityNotFound(5))
    });
    world.registry.register(TypeRegistration {
        name: "Link".to_string(),
        resource: true,
        component: false,
        map_entities: Some(Box::new(failing)),
    });
    world.registry.register(TypeRegistration::component("Position"));
    world.scene.spawn_empty();
    let rollback = Rollback {
        snapshot: RawSnapshot {
            resources: vec![TypedValue::new("Link", vec![9])],
            entities: vec![SaveableEntity {
                entity: 3,
                components: vec![TypedValue::new("Position", vec![1])],
            }],
        },
    };
    let res = rollback.apply(&mut world);
    assert_eq!(res, Err(SaveableError::MapEntitiesError(MapEntitiesError::EntityNotFound(5))));
    // The resource was inserted before the rewrite failed; nothing was despawned or spawned.
    assert_eq!(world.scene.resource(&"Link".to_string()).unwrap().data, vec![9]);
    assert_eq!(world.scene.entities().len(), 1);
    assert_eq!(world.scene.entities()[0].entity, 0);
}
