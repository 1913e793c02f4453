use bevy_save::{
    RawSnapshot, Rollback, Snapshot, TypeRegistration, TypedValue, World,
};

fn value(name: &str, data: &[u8]) -> TypedValue {
    TypedValue::new(name, data.to_vec())
}

fn names(values: &[TypedValue]) -> Vec<&str> {
    values.iter().map(|v| v.name.as_str()).collect()
}

/// Two entities and two resources; `Secret` is registered but may not be
/// saved, `Cache` may be saved but rollbacks leave it out, `Loose` may be
/// saved but is not registered.
fn world() -> World {
    let mut world = World::new();
    world.registry.register(TypeRegistration::component("Position"));
    world.registry.register(TypeRegistration::component("Velocity"));
    world.registry.register(TypeRegistration::component("Secret"));
    world.registry.register(TypeRegistration::resource("Score"));
    world.registry.register(TypeRegistration::resource("Cache"));
    world.registry.register(TypeRegistration::new("Marker"));
    world.saveables.register("Score");
    world.saveables.register("Position");
    world.saveables.register("Cache");
    world.saveables.register("Velocity");
    world.saveables.register("Loose");
    world.saveables.register("Marker");
    world.saveables.set_rollback("Cache", false);

    let a = world.scene.spawn_empty();
    let b = world.scene.spawn_empty();
    let c = world.scene.spawn_empty();
    world.scene.insert_component(a, value("Velocity", &[1, 1]));
    world.scene.insert_component(a, value("Secret", &[9]));
    world.scene.insert_component(a, value("Position", &[0, 0]));
    world.scene.insert_component(b, value("Loose", &[4]));
    world.scene.insert_component(b, value("Marker", &[5]));
    world.scene.insert_component(c, value("Position", &[7, 7]));
    world.scene.insert_resource(value("Cache", &[3]));
    world.scene.insert_resource(value("Score", &[0]));
    world.scene.insert_resource(value("Marker", &[6]));
    world
}

#[test]
fn snapshot_takes_the_saveable_registered_types() {
    let world = world();
    let snapshot = Snapshot::from_world(&world);
    // Resources come in the order of the saveable types.
    assert_eq!(names(&snapshot.snapshot.resources), vec!["Score", "Cache"]);
    assert_eq!(snapshot.snapshot.resources[0].data, vec![0]);
    assert_eq!(snapshot.snapshot.resources[1].data, vec![3]);

    let entities = &snapshot.snapshot.entities;
    assert_eq!(entities.len(), 3);
    assert_eq!(entities[0].entity, 0);
    // Components keep the order in which the entity holds them.
    assert_eq!(names(&entities[0].components), vec!["Velocity", "Position"]);
    assert_eq!(entities[0].components[0].data, vec![1, 1]);
    assert_eq!(entities[0].components[1].data, vec![0, 0]);
    assert_eq!(entities[2].entity, 2);
    assert_eq!(names(&entities[2].components), vec!["Position"]);
}

#[test]
fn an_entity_without_captured_components_still_has_a_record() {
    let world = world();
    let snapshot = Snapshot::from_world(&world);
    assert_eq!(snapshot.snapshot.entities[1].entity, 1);
    assert!(snapshot.snapshot.entities[1].components.is_empty());

    let empty = Snapshot::from_world(&World::new());
    assert!(empty.snapshot.entities.is_empty());
    assert!(empty.snapshot.resources.is_empty());
}

#[test]
fn rollback_leaves_out_what_rollbacks_exclude() {
    let world = world();
    let rollback = Rollback::from_world(&world);
    assert_eq!(names(&rollback.snapshot.resources), vec!["Score"]);
    assert_eq!(names(&rollback.snapshot.entities[0].components), vec!["Velocity", "Position"]);

    let mut world = world;
    world.saveables.set_rollback("Velocity", false);
    world.saveables.set_rollback("Cache", true);
    let rollback = Rollback::from_world(&world);
    assert_eq!(names(&rollback.snapshot.resources), vec!["Score", "Cache"]);
    assert_eq!(names(&rollback.snapshot.entities[0].components), vec!["Position"]);
}

#[test]
fn the_filter_of_the_caller_narrows_the_capture() {
    let world = world();
    let only_components = |reg: &TypeRegistration| reg.component;
    let rollback = Rollback::from_world_with_filter(&world, only_components);
    assert!(rollback.snapshot.resources.is_empty());
    assert_eq!(names(&rollback.snapshot.entities[0].components), vec!["Velocity", "Position"]);

    let no_position = |reg: &TypeRegistration| reg.name != "Position";
    let snapshot = Snapshot::from_world_with_filter(&world, no_position);
    assert_eq!(names(&snapshot.snapshot.resources), vec!["Score", "Cache"]);
    assert_eq!(names(&snapshot.snapshot.entities[0].components), vec!["Velocity"]);
    assert!(snapshot.snapshot.entities[2].components.is_empty());

    let raw = RawSnapshot::from_world_with_filter(&world, |_reg: &TypeRegistration| false);
    assert!(raw.resources.is_empty());
    assert_eq!(raw.entities.len(), 3);
    assert!(raw.entities.iter().all(|e| e.components.is_empty()));
}

#[test]
fn a_capture_does_not_follow_the_world() {
    let mut world = world();
    let snapshot = Snapshot::from_world(&world);
    world.scene.insert_component(0, value("Position", &[5, 5]));
    world.scene.insert_resource(value("Score", &[100]));
    world.scene.despawn(2);
    assert_eq!(snapshot.snapshot.entities[0].components[1].data, vec![0, 0]);
    assert_eq!(snapshot.snapshot.resources[0].data, vec![0]);
    assert_eq!(snapshot.snapshot.entities.len(), 3);

    let copy = snapshot.clone_value();
    assert_eq!(copy.snapshot.resources.len(), snapshot.snapshot.resources.len());
    assert_eq!(copy.snapshot.entities[0].components[1].data, vec![0, 0]);
    assert_eq!(copy.rollbacks.checkpoints.len(), 0);
    assert_eq!(copy.rollbacks.active, None);
}

#[test]
fn a_capture_applied_to_an_empty_world_brings_its_content_back() {
    let source = world();
    let snapshot = Snapshot::from_world(&source);

    let mut target = World::new();
    target.registry.register(TypeRegistration::component("Position"));
    target.registry.register(TypeRegistration::component("Velocity"));
    target.registry.register(TypeRegistration::resource("Score"));
    target.registry.register(TypeRegistration::resource("Cache"));
    let res = snapshot
        .applier(&mut target)
        .despawn(bevy_save::DespawnMode::<()>::KeepAll)
        .mapping(bevy_save::MappingMode::Strict)
        .apply();
    assert_eq!(res, Ok(()));

    let resources = target.scene.resources();
    assert_eq!(names(resources), vec!["Score", "Cache"]);
    assert_eq!(resources[0].data, vec![0]);
    assert_eq!(resources[1].data, vec![3]);
    let entities = target.scene.entities();
    assert_eq!(entities.len(), 3);
    for (made, record) in entities.iter().zip(snapshot.snapshot.entities.iter()) {
        assert_eq!(names(&made.components), names(&record.components));
        for (a, b) in made.components.iter().zip(record.components.iter()) {
            assert_eq!(a.data, b.data);
        }
    }
}

#[test]
fn a_second_apply_changes_nothing() {
    let mut world = world();
    let snapshot = Snapshot::from_world(&world);
    world.scene.insert_component(0, value("Position", &[5, 5]));
    world.scene.insert_resource(value("Score", &[100]));
    world.scene.spawn_empty();

    assert_eq!(snapshot.apply(&mut world), Ok(()));
    let once = RawSnapshot {
        resources: world.scene.resources().iter().map(|v| v.clone_value()).collect(),
        entities: world.scene.entities().iter().map(|e| e.clone_value()).collect(),
    };
    let spare = world.scene.spare_identities();

    assert_eq!(snapshot.apply(&mut world), Ok(()));
    assert_eq!(world.scene.spare_identities(), spare);
    assert_eq!(world.scene.resources().len(), once.resources.len());
    for (a, b) in world.scene.resources().iter().zip(once.resources.iter()) {
        assert_eq!((&a.name, &a.data), (&b.name, &b.data));
    }
    assert_eq!(world.scene.entities().len(), once.entities.len());
    for (a, b) in world.scene.entities().iter().zip(once.entities.iter()) {
        assert_eq!(a.entity, b.entity);
        assert_eq!(a.components.len(), b.components.len());
        for (x, y) in a.components.iter().zip(b.components.iter()) {
            assert_eq!((&x.name, &x.data), (&y.name, &y.data));
        }
    }
    // The entity that the snapshot lacks is gone, the others kept their identities.
    let live: Vec<u32> = world.scene.entities().iter().map(|e| e.entity).collect();
    assert_eq!(live, vec![0, 1, 2]);
    // What the snapshot does not hold of a kept entity stays.
    assert!(world.scene.entity(0).unwrap().components.iter().any(|c| c.name == "Secret"));
}
