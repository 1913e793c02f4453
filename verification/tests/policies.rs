use bevy::ecs::entity::{Entity, EntityMap};
use bevy_save::{
    Applier, DespawnMode, Filter, MappingMode, Matching, RawSnapshot, Rollback,
    SaveableEntity, SaveableError, TypeRegistration, TypedValue, With, Without, World,
};

fn entity_map(pairs: &[(u32, u32)]) -> EntityMap {
    let mut map = EntityMap::default();
    for &(from, to) in pairs {
        map.insert(Entity::from_raw(from), Entity::from_raw(to));
    }
    map
}

fn value(name: &str, data: &[u8]) -> TypedValue {
    TypedValue::new(name, data.to_vec())
}

fn live(world: &World) -> Vec<u32> {
    world.scene.entities().iter().map(|e| e.entity).collect()
}

/// Entities 0..=4; the even ones are players, entity 4 is also frozen.
fn world() -> World {
    let mut world = World::new();
    world.registry.register(TypeRegistration::component("Player"));
    world.registry.register(TypeRegistration::component("Frozen"));
    world.registry.register(TypeRegistration::component("Position"));
    world.registry.register(TypeRegistration::resource("Score"));
    for entity in 0u32..5 {
        world.scene.spawn_empty();
        if entity % 2 == 0 {
            world.scene.insert_component(entity, value("Player", &[]));
        }
    }
    world.scene.insert_component(4, value("Frozen", &[]));
    world
}

fn records(identities: &[u32]) -> Rollback {
    Rollback {
        snapshot: RawSnapshot {
            resources: Vec::new(),
            entities: identities
                .iter()
                .map(|&entity| SaveableEntity { entity, components: Vec::new() })
                .collect(),
        },
    }
}

fn with(name: &str) -> With {
    With { name: name.to_string() }
}

#[test]
fn missing_is_the_default_despawn_mode() {
    assert!(matches!(DespawnMode::default(), DespawnMode::<()>::Missing));
    assert!(matches!(MappingMode::default(), MappingMode::Simple));
    let mut world = world();
    let rollback = records(&[1, 4]);
    assert_eq!(rollback.applier(&mut world).apply(), Ok(()));
    assert_eq!(live(&world), vec![1, 4]);
}

#[test]
fn missing_with_despawns_only_what_matches() {
    let mut world = world();
    let rollback = records(&[0, 1]);
    let mode = DespawnMode::MissingWith(Filter::new(with("Player")));
    assert_eq!(rollback.applier(&mut world).despawn(mode).apply(), Ok(()));
    // 2 and 4 are missing players; 3 is missing but no player.
    assert_eq!(live(&world), vec![0, 1, 3]);
}

#[test]
fn missing_goes_by_what_the_map_gives() {
    let mut world = world();
    let map = entity_map(&[(1, 3)]);
    let rollback = records(&[1, 2]);
    assert_eq!(rollback.applier(&mut world).map(map).apply(), Ok(()));
    // Entity 1 of the snapshot stands for the live entity 3; the live entity 1 is missing.
    assert_eq!(live(&world), vec![2, 3]);
}

#[test]
fn unmapped_despawns_what_the_map_does_not_reach() {
    let mut world = world();
    let map = entity_map(&[(10, 1), (11, 3), (12, 4)]);
    // The entity 12 is mapped, but no entity of the snapshot has that identity.
    let rollback = records(&[10, 11, 2]);
    let res = rollback.applier(&mut world).map(map).despawn(DespawnMode::<()>::Unmapped).apply();
    assert_eq!(res, Ok(()));
    // 2 was despawned although the snapshot has an entity 2, which is then spawned anew.
    assert_eq!(live(&world), vec![1, 3, 5]);
}

#[test]
fn unmapped_with_despawns_only_what_matches() {
    let mut world = world();
    let map = entity_map(&[(10, 0)]);
    let rollback = records(&[10]);
    let mode = DespawnMode::unmapped_with(with("Player"));
    assert!(matches!(mode, DespawnMode::UnmappedWith(_)));
    assert_eq!(rollback.applier(&mut world).map(map).despawn(mode).apply(), Ok(()));
    assert_eq!(live(&world), vec![0, 1, 3]);
}

#[test]
fn all_with_despawns_all_that_match() {
    let mut world = world();
    let rollback = records(&[1]);
    let mode = DespawnMode::all_with(Without { name: "Player".to_string() });
    assert!(matches!(mode, DespawnMode::AllWith(_)));
    let res = rollback.applier(&mut world).mapping(MappingMode::Simple).despawn(mode).apply();
    assert_eq!(res, Ok(()));
    // 1 and 3 are gone though the snapshot holds 1, which is spawned anew.
    assert_eq!(live(&world), vec![0, 2, 4, 5]);
}

#[test]
fn all_with_every_entity_clears_the_world() {
    let mut world = world();
    let rollback = records(&[]);
    let mode = DespawnMode::AllWith(Filter::new(()));
    assert_eq!(rollback.applier(&mut world).despawn(mode).apply(), Ok(()));
    assert!(live(&world).is_empty());
}

#[test]
fn a_function_of_the_caller_filters() {
    let mut world = world();
    let rollback = records(&[]);
    let frozen_players = Matching::new(|entity: &SaveableEntity| {
        entity.components.iter().any(|c| c.name == "Frozen")
            && entity.components.iter().any(|c| c.name == "Player")
    });
    let mode = DespawnMode::all_with(frozen_players);
    assert_eq!(rollback.applier(&mut world).despawn(mode).apply(), Ok(()));
    assert_eq!(live(&world), vec![0, 1, 2, 3]);
}

#[test]
fn keep_all_keeps_all() {
    let mut world = world();
    let rollback = records(&[9, 2]);
    let applier = Applier::new(&mut world, &rollback).despawn(DespawnMode::<()>::KeepAll);
    assert_eq!(applier.apply(), Ok(()));
    assert_eq!(live(&world), vec![0, 1, 2, 3, 4, 5]);
}

#[test]
fn the_entity_map_comes_before_the_fallback() {
    let mut world = world();
    let map = entity_map(&[(2, 3)]);
    let rollback = Rollback {
        snapshot: RawSnapshot {
            resources: Vec::new(),
            entities: vec![
                SaveableEntity { entity: 2, components: vec![value("Position", &[2])] },
                SaveableEntity { entity: 4, components: vec![value("Position", &[4])] },
                SaveableEntity { entity: 8, components: vec![value("Position", &[8])] },
            ],
        },
    };
    let res = rollback.applier(&mut world).map(map).despawn(DespawnMode::<()>::KeepAll).apply();
    assert_eq!(res, Ok(()));
    let position = |entity: u32| {
        world
            .scene
            .entity(entity)
            .unwrap()
            .components
            .iter()
            .find(|c| c.name == "Position")
            .map(|c| c.data.clone())
    };
    assert_eq!(position(2), None);
    assert_eq!(position(3), Some(vec![2]));
    assert_eq!(position(4), Some(vec![4]));
    assert_eq!(position(5), Some(vec![8]));
    assert_eq!(live(&world), vec![0, 1, 2, 3, 4, 5]);
}

#[test]
fn the_fallback_is_taken_before_the_entities_are_applied() {
    let mut world = World::new();
    world.registry.register(TypeRegistration::component("Position"));
    // The first entity is spawned as 0; the second must not take it for its own.
    let rollback = Rollback {
        snapshot: RawSnapshot {
            resources: Vec::new(),
            entities: vec![
                SaveableEntity { entity: 7, components: vec![value("Position", &[7])] },
                SaveableEntity { entity: 0, components: vec![value("Position", &[0])] },
            ],
        },
    };
    assert_eq!(rollback.apply(&mut world), Ok(()));
    assert_eq!(live(&world), vec![0, 1]);
    assert_eq!(world.scene.entity(0).unwrap().components[0].data, vec![7]);
    assert_eq!(world.scene.entity(1).unwrap().components[0].data, vec![0]);
}

#[test]
fn components_are_written_over_or_added_never_removed() {
    let mut world = world();
    world.scene.insert_component(0, value("Position", &[1]));
    let rollback = Rollback {
        snapshot: RawSnapshot {
            resources: Vec::new(),
            entities: vec![SaveableEntity {
                entity: 0,
                components: vec![value("Position", &[2]), value("Frozen", &[3])],
            }],
        },
    };
    assert_eq!(rollback.applier(&mut world).despawn(DespawnMode::<()>::KeepAll).apply(), Ok(()));
    let components = &world.scene.entity(0).unwrap().components;
    let held: Vec<(&str, &[u8])> =
        components.iter().map(|c| (c.name.as_str(), c.data.as_slice())).collect();
    assert_eq!(held, vec![("Player", &[][..]), ("Position", &[2][..]), ("Frozen", &[3][..])]);
}

#[test]
fn every_registration_error_has_its_input() {
    let resource = |name: &str| Rollback {
        snapshot: RawSnapshot { resources: vec![value(name, &[1])], entities: Vec::new() },
    };
    let component = |name: &str| Rollback {
        snapshot: RawSnapshot {
            resources: Vec::new(),
            entities: vec![SaveableEntity { entity: 0, components: vec![value(name, &[1])] }],
        },
    };
    let error = |rollback: Rollback| rollback.apply(&mut world());

    assert_eq!(
        error(resource("Nowhere")),
        Err(SaveableError::UnregisteredType { name: "Nowhere".to_string() })
    );
    assert_eq!(
        error(resource("Position")),
        Err(SaveableError::UnregisteredResource { name: "Position".to_string() })
    );
    assert_eq!(
        error(component("Nowhere")),
        Err(SaveableError::UnregisteredType { name: "Nowhere".to_string() })
    );
    assert_eq!(
        error(component("Score")),
        Err(SaveableError::UnregisteredComponent { name: "Score".to_string() })
    );
    assert_eq!(error(resource("Score")), Ok(()));
    assert_eq!(error(component("Position")), Ok(()));
}

#[test]
fn a_resource_error_comes_before_any_despawn() {
    let mut world = world();
    let rollback = Rollback {
        snapshot: RawSnapshot {
            resources: vec![value("Score", &[1]), value("Nowhere", &[2]), value("Score", &[3])],
            entities: Vec::new(),
        },
    };
    let res = rollback.apply(&mut world);
    assert_eq!(res, Err(SaveableError::UnregisteredType { name: "Nowhere".to_string() }));
    assert_eq!(live(&world), vec![0, 1, 2, 3, 4]);
    assert_eq!(world.scene.resource(&"Score".to_string()).unwrap().data, vec![1]);
}

#[test]
fn an_error_in_an_entity_leaves_what_was_applied() {
    let mut world = world();
    let rollback = Rollback {
        snapshot: RawSnapshot {
            resources: vec![value("Score", &[1])],
            entities: vec![
                SaveableEntity { entity: 0, components: vec![value("Position", &[1])] },
                SaveableEntity {
                    entity: 9,
                    components: vec![value("Position", &[2]), value("Score", &[3])],
                },
                SaveableEntity { entity: 1, components: vec![value("Position", &[4])] },
            ],
        },
    };
    let res = rollback.apply(&mut world);
    assert_eq!(res, Err(SaveableError::UnregisteredComponent { name: "Score".to_string() }));
    // The despawn went through; the entity for 9 was spawned and holds its first component.
    assert_eq!(live(&world), vec![0, 1, 5]);
    assert_eq!(world.scene.entity(5).unwrap().components[0].data, vec![2]);
    assert_eq!(world.scene.entity(5).unwrap().components.len(), 1);
    assert!(world.scene.entity(1).unwrap().components.is_empty());
}

#[test]
fn an_owning_applier_applies_like_a_borrowing_one() {
    let mut world = world();
    let res = records(&[3]).into_applier(&mut world).mapping(MappingMode::Strict).apply();
    assert_eq!(res, Ok(()));
    // 3 is kept by the despawn, but the strict mapping spawns a new entity for the record.
    assert_eq!(live(&world), vec![3, 5]);
}

#[test]
fn the_fallback_maps_every_live_entity_to_itself() {
    let mut world = world();
    world.scene.despawn(2);
    let fallback = bevy_save::apply::fallback_of(&world.scene, &MappingMode::Simple);
    assert_eq!(fallback.len(), 4);
    for entity in [0u32, 1, 3, 4] {
        assert_eq!(fallback.get(Entity::from_raw(entity)).ok(), Some(Entity::from_raw(entity)));
    }
    assert!(fallback.get(Entity::from_raw(2)).is_err());

    let none = bevy_save::apply::fallback_of(&world.scene, &MappingMode::Strict);
    assert!(none.is_empty());
}

#[test]
fn a_new_applier_has_the_default_settings() {
    let mut world = world();
    let rollback = records(&[0]);
    let applier = Applier::new(&mut world, &rollback);
    assert!(applier.map.is_empty());
    assert!(matches!(applier.despawn, DespawnMode::Missing));
    assert!(matches!(applier.mapping, MappingMode::Simple));

    let applier = applier.map(entity_map(&[(0, 1)])).mapping(MappingMode::Strict);
    assert_eq!(applier.map.len(), 1);
    assert!(matches!(applier.mapping, MappingMode::Strict));
    let applier = applier.despawn(DespawnMode::all_with(with("Player")));
    assert!(matches!(applier.despawn, DespawnMode::AllWith(_)));
    assert_eq!(applier.map.len(), 1);
}

#[test]
fn applicable_tells_whether_a_snapshot_can_be_applied() {
    let world = world();
    let rollback = records(&[7, 8]);
    let keep = DespawnMode::<()>::KeepAll;
    assert!(bevy_save::applicable(&world, &rollback.snapshot, &EntityMap::default(), &keep));
    // The entity map may only name live entities.
    assert!(bevy_save::applicable(&world, &rollback.snapshot, &entity_map(&[(7, 4)]), &keep));
    assert!(!bevy_save::applicable(&world, &rollback.snapshot, &entity_map(&[(7, 9)]), &keep));
    // An entry for an entity that the snapshot does not hold is of no account.
    assert!(bevy_save::applicable(&world, &rollback.snapshot, &entity_map(&[(5, 9)]), &keep));
    // The entity must outlast the despawn.
    let players = DespawnMode::all_with(with("Player"));
    assert!(!bevy_save::applicable(&world, &rollback.snapshot, &entity_map(&[(7, 4)]), &players));
    assert!(bevy_save::applicable(&world, &rollback.snapshot, &entity_map(&[(7, 3)]), &players));
    // Where the resources fail, nothing else is asked.
    let mut broken = records(&[7]);
    broken.snapshot.resources.push(value("Nowhere", &[]));
    assert!(bevy_save::applicable(&world, &broken.snapshot, &entity_map(&[(7, 9)]), &keep));
    // The world stays as it is.
    assert_eq!(live(&world), vec![0, 1, 2, 3, 4]);
}

#[test]
fn applicable_counts_the_identities() {
    let mut world = World::new();
    assert!(world.scene.get_or_spawn(u32::MAX - 1));
    let keep = DespawnMode::<()>::KeepAll;
    assert!(bevy_save::applicable(&world, &records(&[1]).snapshot, &EntityMap::default(), &keep));
    assert!(!bevy_save::applicable(&world, &records(&[1, 2]).snapshot, &EntityMap::default(), &keep));
}
