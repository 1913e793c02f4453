use bevy::ecs::entity::{Entity, EntityMap};
use bevy_save::{
    EntityFilter, Matching, RawSnapshot, Rollback, Rollbacks, SaveableEntity, SaveableRegistry,
    Scene, TypeRegistration, TypeRegistry, TypedValue, With, Without,
};
use std::collections::HashSet;

fn value(name: &str, data: &[u8]) -> TypedValue {
    TypedValue::new(name, data.to_vec())
}

fn live(scene: &Scene) -> Vec<u32> {
    scene.entities().iter().map(|e| e.entity).collect()
}

#[test]
fn typed_value_copies_deeply() {
    let source = value("Position", &[1, 2, 3]);
    assert_eq!(source.name(), "Position");
    let mut copy = source.clone_value();
    copy.data[0] = 9;
    assert_eq!(source.data, vec![1, 2, 3]);
    assert_eq!(copy.data, vec![9, 2, 3]);
    assert_eq!(copy.name, "Position");
}

#[test]
fn saveable_entity_maps_itself() {
    let mut map = EntityMap::default();
    map.insert(Entity::from_raw(4), Entity::from_raw(40));
    let mapped = SaveableEntity { entity: 4, components: Vec::new() };
    let unmapped = SaveableEntity { entity: 5, components: vec![value("Position", &[1])] };
    assert_eq!(mapped.map(&map), Some(40));
    assert_eq!(mapped.try_map(&map), 40);
    assert_eq!(unmapped.map(&map), None);
    assert_eq!(unmapped.try_map(&map), 5);
    // An entity map gives entities; the library goes by their indices.
    map.insert(Entity::from_raw(5), Entity::from_bits((7u64 << 32) | 9));
    assert_eq!(unmapped.map(&map), Some(9));
    assert_eq!(unmapped.try_map(&map), 9);
    let copy = unmapped.clone_value();
    assert_eq!(copy.entity, 5);
    assert_eq!(copy.components[0].data, vec![1]);
}

#[test]
fn scene_hands_out_new_identities() {
    let mut scene = Scene::new();
    assert_eq!(scene.spare_identities(), 1u64 << 32);
    assert_eq!(scene.spawn_empty(), 0);
    assert_eq!(scene.spawn_empty(), 1);
    assert!(scene.despawn(0));
    assert!(!scene.despawn(0));
    // An identity that was handed out is not handed out again.
    assert_eq!(scene.spawn_empty(), 2);
    assert_eq!(live(&scene), vec![1, 2]);
    assert!(scene.contains(1));
    assert!(!scene.contains(0));
    assert_eq!(scene.spare_identities(), (1u64 << 32) - 3);
}

#[test]
fn scene_spawns_a_given_identity() {
    let mut scene = Scene::new();
    assert!(scene.get_or_spawn(5));
    assert!(!scene.get_or_spawn(5));
    assert!(scene.get_or_spawn(2));
    assert_eq!(live(&scene), vec![5, 2]);
    assert_eq!(scene.spawn_empty(), 6);
    assert!(scene.get_or_spawn(u32::MAX));
    assert_eq!(scene.spare_identities(), 0);
}

#[test]
fn scene_writes_components_over_by_type() {
    let mut scene = Scene::new();
    let entity = scene.spawn_empty();
    assert!(scene.insert_component(entity, value("Position", &[1])));
    assert!(scene.insert_component(entity, value("Velocity", &[2])));
    assert!(scene.insert_component(entity, value("Position", &[3])));
    assert!(!scene.insert_component(9, value("Position", &[4])));
    let held = scene.entity(entity).unwrap();
    assert_eq!(held.components.len(), 2);
    assert_eq!(held.components[0].name, "Position");
    assert_eq!(held.components[0].data, vec![3]);
    assert_eq!(held.components[1].name, "Velocity");
    assert!(scene.entity(9).is_none());
}

#[test]
fn scene_writes_resources_over_by_type() {
    let mut scene = Scene::new();
    scene.insert_resource(value("Score", &[1]));
    scene.insert_resource(value("Level", &[2]));
    scene.insert_resource(value("Score", &[3]));
    assert_eq!(scene.resources().len(), 2);
    assert_eq!(scene.resource(&"Score".to_string()).unwrap().data, vec![3]);
    assert_eq!(scene.resource(&"Level".to_string()).unwrap().data, vec![2]);
    assert!(scene.resource(&"Lives".to_string()).is_none());
}

#[test]
fn scene_despawns_a_set() {
    let mut scene = Scene::new();
    for _ in 0..6 {
        scene.spawn_empty();
    }
    let dead: HashSet<u32> = [1, 2, 5, 40].into_iter().collect();
    scene.despawn_all(&dead);
    assert_eq!(live(&scene), vec![0, 3, 4]);
    scene.despawn_all(&HashSet::new());
    assert_eq!(live(&scene), vec![0, 3, 4]);
}

#[test]
fn type_registry_keeps_one_registration_per_name() {
    let mut registry = TypeRegistry::new();
    registry.register(TypeRegistration::component("Position"));
    registry.register(TypeRegistration::resource("Score"));
    registry.register(TypeRegistration::resource("Position"));
    assert_eq!(registry.len(), 2);
    let position = registry.get_with_name(&"Position".to_string()).unwrap();
    assert!(position.resource && !position.component);
    assert_eq!(registry.get(0).name(), "Position");
    assert_eq!(registry.get(1).name(), "Score");
    assert!(registry.get_with_name(&"Velocity".to_string()).is_none());
    let plain = TypeRegistration::new("Plain");
    assert!(!plain.resource && !plain.component && plain.map_entities.is_none());
}

#[test]
fn saveable_registry_marks_rollbacks() {
    let mut saveables = SaveableRegistry::new();
    saveables.register("Position");
    saveables.register("Score");
    saveables.register("Position");
    assert_eq!(saveables.len(), 2);
    assert!(saveables.contains(&"Position".to_string()));
    assert!(!saveables.contains(&"Velocity".to_string()));
    assert!(saveables.can_rollback(&"Score".to_string()));
    assert!(!saveables.can_rollback(&"Velocity".to_string()));

    saveables.set_rollback("Score", false);
    saveables.set_rollback("Velocity", false);
    assert!(saveables.contains(&"Score".to_string()));
    assert!(!saveables.can_rollback(&"Score".to_string()));
    assert!(!saveables.contains(&"Velocity".to_string()));
    // Registering again does not bring the mark back.
    saveables.register("Score");
    assert!(!saveables.can_rollback(&"Score".to_string()));
    assert_eq!(saveables.get(1).name, "Score");
    saveables.set_rollback("Score", true);
    assert!(saveables.can_rollback(&"Score".to_string()));
}

fn frame(mark: u8) -> Rollback {
    Rollback {
        snapshot: RawSnapshot { resources: vec![value("Mark", &[mark])], entities: Vec::new() },
    }
}

fn mark(rollback: Option<&Rollback>) -> Option<u8> {
    rollback.map(|r| r.snapshot.resources[0].data[0])
}

#[test]
fn rollbacks_move_within_the_history() {
    let mut history = Rollbacks::new();
    assert_eq!(mark(history.rollback(1)), None);
    for m in 0..4 {
        history.checkpoint(frame(m));
    }
    assert_eq!(history.active, Some(3));
    assert_eq!(mark(history.rollback(0)), Some(3));
    assert_eq!(mark(history.rollback(1)), Some(2));
    assert_eq!(mark(history.rollback(2)), Some(0));
    assert_eq!(mark(history.rollback(5)), Some(0));
    assert_eq!(mark(history.rollback(-1)), Some(1));
    assert_eq!(mark(history.rollback(-7)), Some(3));
    assert_eq!(mark(history.rollback(isize::MIN)), Some(3));
    assert_eq!(mark(history.rollback(isize::MAX)), Some(0));
    assert_eq!(history.active, Some(0));
    assert_eq!(history.checkpoints.len(), 4);
}

#[test]
fn a_checkpoint_drops_what_was_undone() {
    let mut history = Rollbacks::new();
    for m in 0..4 {
        history.checkpoint(frame(m));
    }
    history.rollback(2);
    history.checkpoint(frame(9));
    let marks: Vec<u8> =
        history.checkpoints.iter().map(|r| r.snapshot.resources[0].data[0]).collect();
    assert_eq!(marks, vec![0, 1, 9]);
    assert_eq!(history.active, Some(2));

    let copy = history.clone_value();
    history.checkpoint(frame(10));
    assert_eq!(copy.checkpoints.len(), 3);
    assert_eq!(copy.active, Some(2));
    assert_eq!(history.checkpoints.len(), 4);
}

#[test]
fn copies_share_nothing() {
    let mut scene = Scene::new();
    let entity = scene.spawn_empty();
    scene.insert_component(entity, value("Position", &[1]));
    scene.insert_resource(value("Score", &[2]));
    let copy = scene.clone_value();
    scene.insert_component(entity, value("Position", &[9]));
    scene.despawn(entity);
    scene.insert_resource(value("Score", &[8]));
    assert_eq!(live(&copy), vec![0]);
    assert_eq!(copy.entity(0).unwrap().components[0].data, vec![1]);
    assert_eq!(copy.resource(&"Score".to_string()).unwrap().data, vec![2]);
    assert_eq!(copy.spare_identities(), scene.spare_identities());

    let mut rollback = frame(3);
    let kept = rollback.clone_value();
    rollback.snapshot.resources[0].data[0] = 4;
    rollback.snapshot.entities.push(SaveableEntity { entity: 1, components: Vec::new() });
    assert_eq!(mark(Some(&kept)), Some(3));
    assert!(kept.snapshot.entities.is_empty());
    let raw = rollback.snapshot.clone_value();
    assert_eq!(raw.resources[0].data, vec![4]);
    assert_eq!(raw.entities.len(), 1);
}

#[test]
fn filters_test_entities() {
    let player = SaveableEntity {
        entity: 3,
        components: vec![value("Position", &[1]), value("Player", &[])],
    };
    let bare = SaveableEntity { entity: 4, components: Vec::new() };
    let with = With { name: "Player".to_string() };
    let without = Without { name: "Player".to_string() };
    assert!(with.matches(&player) && !with.matches(&bare));
    assert!(!without.matches(&player) && without.matches(&bare));
    assert!(().matches(&player) && ().matches(&bare));
    let even = Matching::new(|entity: &SaveableEntity| entity.entity % 2 == 0);
    assert!(!even.matches(&player) && even.matches(&bare));
}
