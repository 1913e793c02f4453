use bevy::ecs::entity::{Entity, EntityMap};
use bevy_save::{
    DespawnMode, MappingMode, RawSnapshot, Rollback, SaveableEntity, SaveableError,
    Snapshot, TypeRegistration, TypedValue, World,
};

fn entity_map(pairs: &[(u32, u32)]) -> EntityMap {
    let mut map = EntityMap::default();
    for &(from, to) in pairs {
        map.insert(Entity::from_raw(from), Entity::from_raw(to));
    }
    map
}

fn value(name: &str, data: &[u8]) -> TypedValue {
    TypedValue::new(name, data.to_vec())
}

fn game_world() -> World {
    let mut world = World::new();
    world.registry.register(TypeRegistration::component("Position"));
    world.registry.register(TypeRegistration::component("Velocity"));
    world.registry.register(TypeRegistration::resource("Score"));
    world.saveables.register("Position");
    world.saveables.register("Velocity");
    world.saveables.register("Score");
    world
}

fn component<'a>(world: &'a World, entity: u32, name: &str) -> Option<&'a TypedValue> {
    world
        .scene
        .entity(entity)
        .and_then(|e| e.components.iter().find(|c| c.name == name))
}

fn live(world: &World) -> Vec<u32> {
    world.scene.entities().iter().map(|e| e.entity).collect()
}

#[test]
fn rollback_restores_the_changed_component() {
    let mut world = game_world();
    let entity = world.scene.spawn_empty();
    assert!(world.scene.insert_component(entity, value("Position", &[0, 0])));
    assert!(world.scene.insert_component(entity, value("Velocity", &[1, 1])));
    world.scene.insert_resource(value("Score", &[0]));

    let rollback = Rollback::from_world(&world);
    assert!(world.scene.insert_component(entity, value("Position", &[5, 5])));
    assert_eq!(component(&world, entity, "Position").unwrap().data, vec![5, 5]);

    assert_eq!(rollback.apply(&mut world), Ok(()));
    assert_eq!(component(&world, entity, "Position").unwrap().data, vec![0, 0]);
    assert_eq!(component(&world, entity, "Velocity").unwrap().data, vec![1, 1]);
    assert_eq!(world.scene.resource(&"Score".to_string()).unwrap().data, vec![0]);
    assert_eq!(live(&world), vec![entity]);
}

#[test]
fn remove_missing_despawns_what_the_snapshot_lacks() {
    let mut world = game_world();
    for _ in 0..4 {
        world.scene.spawn_empty();
    }
    assert!(world.scene.despawn(0));
    for entity in 1u32..4 {
        world.scene.insert_component(entity, value("Position", &[entity as u8]));
    }
    assert_eq!(live(&world), vec![1, 2, 3]);

    let snapshot = RawSnapshot {
        resources: Vec::new(),
        entities: vec![
            SaveableEntity { entity: 1, components: vec![value("Position", &[10])] },
            SaveableEntity { entity: 3, components: vec![value("Position", &[30])] },
        ],
    };
    let rollback = Rollback { snapshot };
    let res = rollback.applier(&mut world).despawn(DespawnMode::<()>::Missing).apply();
    assert_eq!(res, Ok(()));
    assert_eq!(live(&world), vec![1, 3]);
    assert_eq!(component(&world, 1, "Position").unwrap().data, vec![10]);
    assert_eq!(component(&world, 3, "Position").unwrap().data, vec![30]);
}

#[test]
fn keep_all_never_despawns() {
    let mut world = game_world();
    world.scene.spawn_empty();
    world.scene.spawn_empty();
    let rollback = Rollback {
        snapshot: RawSnapshot {
            resources: Vec::new(),
            entities: vec![SaveableEntity { entity: 7, components: Vec::new() }],
        },
    };
    let res = rollback.applier(&mut world).despawn(DespawnMode::<()>::KeepAll).apply();
    assert_eq!(res, Ok(()));
    assert_eq!(live(&world), vec![0, 1, 2]);
}

#[test]
fn simple_mapping_reuses_the_identity_and_strict_spawns() {
    let rollback = Rollback {
        snapshot: RawSnapshot {
            resources: Vec::new(),
            entities: vec![SaveableEntity { entity: 1, components: vec![value("Position", &[9])] }],
        },
    };

    let mut world = game_world();
    world.scene.spawn_empty();
    world.scene.spawn_empty();
    let res = rollback
        .applier(&mut world)
        .despawn(DespawnMode::<()>::KeepAll)
        .mapping(MappingMode::Simple)
        .apply();
    assert_eq!(res, Ok(()));
    assert_eq!(live(&world), vec![0, 1]);
    assert_eq!(component(&world, 1, "Position").unwrap().data, vec![9]);

    let mut world = game_world();
    world.scene.spawn_empty();
    world.scene.spawn_empty();
    let res = rollback
        .applier(&mut world)
        .despawn(DespawnMode::<()>::KeepAll)
        .mapping(MappingMode::Strict)
        .apply();
    assert_eq!(res, Ok(()));
    assert_eq!(live(&world), vec![0, 1, 2]);
    assert!(component(&world, 1, "Position").is_none());
    assert_eq!(component(&world, 2, "Position").unwrap().data, vec![9]);
}

#[test]
fn unregistered_type_stops_the_apply() {
    let mut world = game_world();
    let rollback = Rollback {
        snapshot: RawSnapshot {
            resources: Vec::new(),
            entities: vec![
                SaveableEntity { entity: 0, components: vec![value("Position", &[1])] },
                SaveableEntity {
                    entity: 1,
                    components: vec![value("Position", &[2]), value("Ghost", &[3])],
                },
                SaveableEntity { entity: 2, components: vec![value("Position", &[4])] },
            ],
        },
    };
    let res = rollback.apply(&mut world);
    assert_eq!(res, Err(SaveableError::UnregisteredType { name: "Ghost".to_string() }));
    assert_eq!(live(&world), vec![0, 1]);
    assert_eq!(component(&world, 0, "Position").unwrap().data, vec![1]);
    assert_eq!(component(&world, 1, "Position").unwrap().data, vec![2]);
}

#[test]
fn explicit_map_redirects_the_entity() {
    let mut world = game_world();
    world.scene.spawn_empty();
    world.scene.spawn_empty();
    let map = entity_map(&[(5, 1)]);
    let rollback = Rollback {
        snapshot: RawSnapshot {
            resources: Vec::new(),
            entities: vec![SaveableEntity { entity: 5, components: vec![value("Velocity", &[3])] }],
        },
    };
    let res = rollback.applier(&mut world).map(map).despawn(DespawnMode::<()>::Unmapped).apply();
    assert_eq!(res, Ok(()));
    assert_eq!(live(&world), vec![1]);
    assert_eq!(component(&world, 1, "Velocity").unwrap().data, vec![3]);
}

#[test]
fn snapshot_restores_the_rollbacks_on_success_only() {
    let mut world = game_world();
    world.scene.spawn_empty();
    world.rollbacks.checkpoint(Rollback::from_world(&world));
    let snapshot = Snapshot::from_world(&world);
    assert_eq!(snapshot.rollbacks.checkpoints.len(), 1);

    world.rollbacks.checkpoint(Rollback::from_world(&world));
    assert_eq!(world.rollbacks.checkpoints.len(), 2);
    assert_eq!(snapshot.apply(&mut world), Ok(()));
    assert_eq!(world.rollbacks.checkpoints.len(), 1);
    assert_eq!(world.rollbacks.active, Some(0));

    let mut broken = snapshot.clone_value();
    broken.snapshot.resources.push(value("Nowhere", &[1]));
    world.rollbacks.checkpoint(Rollback::from_world(&world));
    let res = broken.apply(&mut world);
    assert_eq!(res, Err(SaveableError::UnregisteredType { name: "Nowhere".to_string() }));
    assert_eq!(world.rollbacks.checkpoints.len(), 2);
}
