//! Applying a snapshot to a world: the steps, what each makes of the
//! scene, and when it fails.

use crate::entity::{
    empty_entity_map, entries, map_entity, map_identity, mapped_entity, no_entries,
    try_map_identity, EntityView, SaveableEntity,
};
use crate::error::{error_of, ErrorView, SaveableError};
use crate::filter::EntityFilter;
use crate::policy::{mapped_identities, present_identities, resolve, DespawnMode, MappingMode};
use crate::registry::{lookup, TypeRegistration, TypeRegistry};
use crate::snapshot::{RawSnapshot, SnapshotView};
use crate::value::{lemma_put_value, TypedValue, ValueView};
use crate::world::{
    is_live, lemma_map_entities, lemma_without_live, without, Scene, SceneView, World,
    IDENTITIES,
};
use bevy::ecs::entity::EntityMap;
use std::collections::HashSet;
use vstd::prelude::*;
use vstd::std_specs::hash::*;

verus! {

broadcast use vstd::std_specs::hash::group_hash_axioms;

/// A scene and the error, if any, that ended the work on it.
pub struct Outcome {
    pub scene: SceneView,
    pub error: Option<ErrorView>,
}

impl Outcome {
    /// The outcome of work that went through.
    pub open spec fn done(scene: SceneView) -> Outcome {
        Outcome { scene, error: None }
    }

    /// The outcome of work that ended with `error`.
    pub open spec fn failed(scene: SceneView, error: ErrorView) -> Outcome {
        Outcome { scene, error: Some(error) }
    }
}

/// Applying one resource: its type must be registered, and as a resource;
/// then the resource is inserted and the entity references in the values of
/// its type are rewritten.
pub open spec fn apply_resource(
    scene: SceneView,
    registry: Seq<TypeRegistration>,
    value: ValueView,
    entity_map: Map<u32, u32>,
) -> Outcome {
    match lookup(registry, value.name) {
        None => Outcome::failed(scene, ErrorView::UnregisteredType { name: value.name }),
        Some(reg) => if !reg.resource {
            Outcome::failed(scene, ErrorView::UnregisteredResource { name: value.name })
        } else {
            let (rewritten, err) = scene.insert_resource(value).map_entities(reg, entity_map);
            match err {
                Some(e) => Outcome::failed(rewritten, ErrorView::MapEntitiesError(e)),
                None => Outcome::done(rewritten),
            }
        },
    }
}

/// Applying the resources from the index `from` on, in their order, up to
/// the first error.
pub open spec fn apply_resources_from(
    scene: SceneView,
    registry: Seq<TypeRegistration>,
    resources: Seq<ValueView>,
    entity_map: Map<u32, u32>,
    from: int,
) -> Outcome
    decreases resources.len() - from,
{
    if from < 0 || from >= resources.len() {
        Outcome::done(scene)
    } else {
        let first = apply_resource(scene, registry, resources[from], entity_map);
        if first.error is Some {
            first
        } else {
            apply_resources_from(first.scene, registry, resources, entity_map, from + 1)
        }
    }
}

/// Applying the components from the index `from` on to the entity `target`,
/// in their order, up to the first error: the type of each must be
/// registered, and as a component; then it is inserted.
pub open spec fn apply_components_from(
    scene: SceneView,
    registry: Seq<TypeRegistration>,
    target: u32,
    components: Seq<ValueView>,
    from: int,
) -> Outcome
    decreases components.len() - from,
{
    if from < 0 || from >= components.len() {
        Outcome::done(scene)
    } else {
        let value = components[from];
        match lookup(registry, value.name) {
            None => Outcome::failed(scene, ErrorView::UnregisteredType { name: value.name }),
            Some(reg) => if !reg.component {
                Outcome::failed(scene, ErrorView::UnregisteredComponent { name: value.name })
            } else {
                apply_components_from(
                    scene.insert_component(target, value),
                    registry,
                    target,
                    components,
                    from + 1,
                )
            },
        }
    }
}

/// Applying one entity of a snapshot: its components go to the live entity
/// that `resolve` names, or to a newly spawned one where it names none.
pub open spec fn apply_entity(
    scene: SceneView,
    registry: Seq<TypeRegistration>,
    record: EntityView,
    entity_map: Map<u32, u32>,
    fallback: Map<u32, u32>,
) -> Outcome {
    match resolve(entity_map, fallback, record.entity) {
        Some(target) => apply_components_from(scene, registry, target, record.components, 0),
        None => apply_components_from(
            scene.spawn_empty(),
            registry,
            scene.next as u32,
            record.components,
            0,
        ),
    }
}

/// Applying the entities of a snapshot from the index `from` on, in their
/// order, up to the first error.
pub open spec fn apply_entities_from(
    scene: SceneView,
    registry: Seq<TypeRegistration>,
    records: Seq<EntityView>,
    entity_map: Map<u32, u32>,
    fallback: Map<u32, u32>,
    from: int,
) -> Outcome
    decreases records.len() - from,
{
    if from < 0 || from >= records.len() {
        Outcome::done(scene)
    } else {
        let first = apply_entity(scene, registry, records[from], entity_map, fallback);
        if first.error is Some {
            first
        } else {
            apply_entities_from(first.scene, registry, records, entity_map, fallback, from + 1)
        }
    }
}

/// Rewriting the entity references in the values of every registered type
/// from the index `from` on, in the order of the registry, up to the first
/// failure.
pub open spec fn map_all_entities_from(
    scene: SceneView,
    registry: Seq<TypeRegistration>,
    entity_map: Map<u32, u32>,
    from: int,
) -> Outcome
    decreases registry.len() - from,
{
    if from < 0 || from >= registry.len() {
        Outcome::done(scene)
    } else {
        let (rewritten, err) = scene.map_entities(registry[from], entity_map);
        match err {
            Some(e) => Outcome::failed(rewritten, ErrorView::MapEntitiesError(e)),
            None => map_all_entities_from(rewritten, registry, entity_map, from + 1),
        }
    }
}

/// Applying a snapshot to a scene, in this order and up to the first error:
/// the resources are applied; the entities that the despawn mode dooms are
/// despawned; the fallback is taken from the entities that are live then;
/// the entities of the snapshot are applied; and the entity references in
/// the values of every registered type are rewritten.
pub open spec fn apply_snapshot<F: EntityFilter>(
    scene: SceneView,
    registry: Seq<TypeRegistration>,
    snapshot: SnapshotView,
    entity_map: Map<u32, u32>,
    despawn: DespawnMode<F>,
    mapping: MappingMode,
) -> Outcome {
    let resources = apply_resources_from(scene, registry, snapshot.resources, entity_map, 0);
    if resources.error is Some {
        resources
    } else {
        let despawned = resources.scene.despawn_all(
            despawn.doomed(resources.scene.entities, snapshot.entities, entity_map),
        );
        let entities = apply_entities_from(
            despawned,
            registry,
            snapshot.entities,
            entity_map,
            mapping.fallback(despawned.entities),
            0,
        );
        if entities.error is Some {
            entities
        } else {
            map_all_entities_from(entities.scene, registry, entity_map, 0)
        }
    }
}

/// Whether every identity that the entity map gives to an entity of
/// `snapshot` is live once the despawn mode has despawned its entities.
pub open spec fn targets_survive<F: EntityFilter>(
    entities: Seq<EntityView>,
    snapshot: Seq<EntityView>,
    entity_map: Map<u32, u32>,
    despawn: DespawnMode<F>,
) -> bool {
    forall|i: int|
        0 <= i < snapshot.len() && entity_map.contains_key((#[trigger] snapshot[i]).entity)
            ==> is_live(
            without(entities, despawn.doomed(entities, snapshot, entity_map)),
            entity_map[snapshot[i].entity],
        )
}

/// Whether `snapshot` can be applied to `scene`: the identities suffice for
/// the entities that may have to be spawned, and where the resources go
/// through, the entity map names only entities that are live when the
/// entities of the snapshot are applied.
pub open spec fn can_apply<F: EntityFilter>(
    scene: SceneView,
    registry: Seq<TypeRegistration>,
    snapshot: SnapshotView,
    entity_map: Map<u32, u32>,
    despawn: DespawnMode<F>,
) -> bool {
    let resources = apply_resources_from(scene, registry, snapshot.resources, entity_map, 0);
    &&& scene.next + snapshot.entities.len() <= IDENTITIES
    &&& resources.error is None ==> targets_survive(
        resources.scene.entities,
        snapshot.entities,
        entity_map,
        despawn,
    )
}

/// Applies `resources` to `scene` in their order, up to the first error.
pub fn apply_resources(
    scene: &mut Scene,
    registry: &TypeRegistry,
    resources: &Vec<TypedValue>,
    entity_map: &EntityMap,
) -> (res: Result<(), SaveableError>)
    ensures
        (Outcome { scene: final(scene)@, error: error_of(res) }) == apply_resources_from(
            old(scene)@,
            registry@,
            resources.deep_view(),
            entries(*entity_map),
            0,
        ),
{
    let ghost target = apply_resources_from(
        old(scene)@,
        registry@,
        resources.deep_view(),
        entries(*entity_map),
        0,
    );
    let mut i: usize = 0;
    while i < resources.len()
        invariant
            i <= resources.len(),
            target == apply_resources_from(
                old(scene)@,
                registry@,
                resources.deep_view(),
                entries(*entity_map),
                0,
            ),
            apply_resources_from(
                scene@,
                registry@,
                resources.deep_view(),
                entries(*entity_map),
                i as int,
            ) == target,
        decreases resources.len() - i,
    {
        let resource = &resources[i];
        assert(resource@ == resources.deep_view()[i as int]);
        let reg = match registry.get_with_name(&resource.name) {
            Some(reg) => reg,
            None => {
                return Err(SaveableError::UnregisteredType { name: resource.name.clone() });
            },
        };
        if !reg.resource {
            return Err(SaveableError::UnregisteredResource { name: resource.name.clone() });
        }
        scene.insert_resource(resource.clone_value());
        if let Err(e) = scene.map_entities(reg, entity_map) {
            return Err(SaveableError::MapEntitiesError(e));
        }
        i += 1;
    }
    Ok(())
}

/// The identities that stand for the entities of `records` in the live
/// world: with `own` what the entity map gives to each or else its own
/// identity, without `own` only what the entity map gives.
fn identities_of(
    records: &Vec<SaveableEntity>,
    entity_map: &EntityMap,
    own: bool,
) -> (valid: HashSet<u32>)
    ensures
        valid@ == if own {
            present_identities(records.deep_view(), entries(*entity_map))
        } else {
            mapped_identities(records.deep_view(), entries(*entity_map))
        },
{
    let mut valid: HashSet<u32> = HashSet::new();
    let ghost snapshot = records.deep_view();
    let mut i: usize = 0;
    while i < records.len()
        invariant
            i <= records.len(),
            snapshot == records.deep_view(),
            valid@ == if own {
                present_identities(snapshot.take(i as int), entries(*entity_map))
            } else {
                mapped_identities(snapshot.take(i as int), entries(*entity_map))
            },
        decreases records.len() - i,
    {
        let ghost before = valid@;
        let ghost seen = snapshot.take(i as int);
        let ghost more = snapshot.take(i as int + 1);
        assert(records[i as int]@ == snapshot[i as int]);
        if own {
            let id = records[i].try_map(entity_map);
            valid.insert(id);
            assert(valid@ =~= present_identities(more, entries(*entity_map))) by {
                assert forall|x: u32| present_identities(more, entries(*entity_map)).contains(x) implies (
                before.insert(id)).contains(x) by {
                    let k = choose|k: int|
                        0 <= k < more.len() && try_map_identity(
                            entries(*entity_map),
                            (#[trigger] more[k]).entity,
                        ) == x;
                    if k < i {
                        assert(seen[k] == more[k]);
                    }
                }
                assert forall|x: u32| before.insert(id).contains(x) implies present_identities(
                    more,
                    entries(*entity_map),
                ).contains(x) by {
                    if x == id {
                        assert(more[i as int] == snapshot[i as int]);
                    } else {
                        let k = choose|k: int|
                            0 <= k < seen.len() && try_map_identity(
                                entries(*entity_map),
                                (#[trigger] seen[k]).entity,
                            ) == x;
                        assert(more[k] == seen[k]);
                    }
                }
            }
        } else {
            match records[i].map(entity_map) {
                Some(id) => {
                    valid.insert(id);
                },
                None => {},
            }
            assert(valid@ =~= mapped_identities(more, entries(*entity_map))) by {
                assert forall|x: u32| mapped_identities(more, entries(*entity_map)).contains(x) implies valid@.contains(
                    x,
                ) by {
                    let k = choose|k: int|
                        0 <= k < more.len() && map_identity(
                            entries(*entity_map),
                            (#[trigger] more[k]).entity,
                        ) == Some(x);
                    if k < i {
                        assert(seen[k] == more[k]);
                    }
                }
                assert forall|x: u32| valid@.contains(x) implies mapped_identities(
                    more,
                    entries(*entity_map),
                ).contains(x) by {
                    if before.contains(x) {
                        let k = choose|k: int|
                            0 <= k < seen.len() && map_identity(
                                entries(*entity_map),
                                (#[trigger] seen[k]).entity,
                            ) == Some(x);
                        assert(more[k] == seen[k]);
                    } else {
                        assert(more[i as int] == snapshot[i as int]);
                    }
                }
            }
        }
        i += 1;
    }
    assert(snapshot.take(records.len() as int) =~= snapshot);
    valid
}

/// The identities of the live entities that `despawn` dooms when `records`
/// are applied under `entity_map`.
pub fn doomed_entities<F: EntityFilter>(
    scene: &Scene,
    records: &Vec<SaveableEntity>,
    entity_map: &EntityMap,
    despawn: &DespawnMode<F>,
) -> (dead: HashSet<u32>)
    ensures
        dead@ == despawn.doomed(scene@.entities, records.deep_view(), entries(*entity_map)),
{
    let own = match despawn {
        DespawnMode::Missing => true,
        DespawnMode::MissingWith(_) => true,
        _ => false,
    };
    let valid = identities_of(records, entity_map, own);
    let ghost snapshot = records.deep_view();
    let mut dead: HashSet<u32> = HashSet::new();
    let live = scene.entities();
    let ghost entities = live.deep_view();
    let mut i: usize = 0;
    while i < live.len()
        invariant
            i <= live.len(),
            entities == live.deep_view(),
            snapshot == records.deep_view(),
            valid@ == if own {
                present_identities(snapshot, entries(*entity_map))
            } else {
                mapped_identities(snapshot, entries(*entity_map))
            },
            own == (despawn is Missing || despawn is MissingWith),
            dead@ == despawn.doomed(entities.take(i as int), snapshot, entries(*entity_map)),
        decreases live.len() - i,
    {
        let entity = &live[i];
        assert(entity@ == entities[i as int]);
        let doomed = match despawn {
            DespawnMode::Missing => !valid.contains(&entity.entity),
            DespawnMode::MissingWith(f) => !valid.contains(&entity.entity) && f.filter.matches(
                entity,
            ),
            DespawnMode::Unmapped => !valid.contains(&entity.entity),
            DespawnMode::UnmappedWith(f) => !valid.contains(&entity.entity) && f.filter.matches(
                entity,
            ),
            DespawnMode::AllWith(f) => f.filter.matches(entity),
            DespawnMode::KeepAll => false,
        };
        assert(doomed == despawn.dooms(snapshot, entries(*entity_map), entity@));
        let ghost before = dead@;
        if doomed {
            dead.insert(entity.entity);
        }
        proof {
            let seen = entities.take(i as int);
            let more = entities.take(i as int + 1);
            assert(dead@ =~= despawn.doomed(more, snapshot, entries(*entity_map))) by {
                assert forall|x: u32| despawn.doomed(more, snapshot, entries(*entity_map)).contains(
                    x,
                ) implies dead@.contains(x) by {
                    let k = choose|k: int|
                        0 <= k < more.len() && (#[trigger] more[k]).entity == x && despawn.dooms(
                            snapshot,
                            entries(*entity_map),
                            more[k],
                        );
                    if k < i {
                        assert(seen[k] == more[k]);
                    }
                }
                assert forall|x: u32| dead@.contains(x) implies despawn.doomed(
                    more,
                    snapshot,
                    entries(*entity_map),
                ).contains(x) by {
                    if before.contains(x) {
                        let k = choose|k: int|
                            0 <= k < seen.len() && (#[trigger] seen[k]).entity == x
                                && despawn.dooms(snapshot, entries(*entity_map), seen[k]);
                        assert(more[k] == seen[k]);
                    } else {
                        assert(more[i as int] == entities[i as int]);
                    }
                }
            }
        }
        i += 1;
    }
    assert(entities.take(live.len() as int) =~= entities);
    dead
}

/// Despawns the live entities that `despawn` dooms when `records` are
/// applied under `entity_map`.
pub fn despawn_entities<F: EntityFilter>(
    scene: &mut Scene,
    records: &Vec<SaveableEntity>,
    entity_map: &EntityMap,
    despawn: &DespawnMode<F>,
)
    ensures
        final(scene)@ == old(scene)@.despawn_all(
            despawn.doomed(old(scene)@.entities, records.deep_view(), entries(*entity_map)),
        ),
{
    let dead = doomed_entities(scene, records, entity_map, despawn);
    scene.despawn_all(&dead);
}

/// Whether `snapshot` can be applied to `world` under `entity_map` with the
/// despawn mode `despawn`: decided on a copy of the scene, the world stays
/// as it is.
pub fn applicable<F: EntityFilter>(
    world: &World,
    snapshot: &RawSnapshot,
    entity_map: &EntityMap,
    despawn: &DespawnMode<F>,
) -> (ok: bool)
    ensures
        ok == can_apply(world.scene@, world.registry@, snapshot@, entries(*entity_map), *despawn),
{
    if world.scene.spare_identities() < snapshot.entities.len() as u64 {
        return false;
    }
    let mut scene = world.scene.clone_value();
    if apply_resources(&mut scene, &world.registry, &snapshot.resources, entity_map).is_err() {
        return true;
    }
    let dead = doomed_entities(&scene, &snapshot.entities, entity_map, despawn);
    let ghost entities = scene@.entities;
    let ghost records = snapshot@.entities;
    let mut i: usize = 0;
    while i < snapshot.entities.len()
        invariant
            i <= snapshot.entities.len(),
            entities == scene@.entities,
            records == snapshot@.entities,
            world.scene@.next + records.len() <= IDENTITIES,
            apply_resources_from(
                world.scene@,
                world.registry@,
                snapshot@.resources,
                entries(*entity_map),
                0,
            ) == Outcome::done(scene@),
            dead@ == despawn.doomed(entities, records, entries(*entity_map)),
            forall|j: int|
                0 <= j < i && entries(*entity_map).contains_key((#[trigger] records[j]).entity) ==> is_live(
                    without(entities, dead@),
                    entries(*entity_map)[records[j].entity],
                ),
        decreases snapshot.entities.len() - i,
    {
        let record = &snapshot.entities[i];
        assert(record@ == records[i as int]);
        if let Some(target) = record.map(entity_map) {
            proof {
                lemma_without_live(entities, dead@, target);
            }
            if !scene.contains(target) || dead.contains(&target) {
                assert(entries(*entity_map).contains_key(records[i as int].entity));
                assert(!targets_survive(entities, records, entries(*entity_map), *despawn));
                return false;
            }
        }
        i += 1;
    }
    true
}

/// The map that stands in for the entity map where that has no entry.
pub fn fallback_of(scene: &Scene, mapping: &MappingMode) -> (fallback: EntityMap)
    ensures
        entries(fallback) == mapping.fallback(scene@.entities),
{
    let mut fallback = empty_entity_map();
    match mapping {
        MappingMode::Simple => {
            let live = scene.entities();
            let ghost entities = live.deep_view();
            let mut i: usize = 0;
            while i < live.len()
                invariant
                    i <= live.len(),
                    entities == live.deep_view(),
                    entries(fallback) == MappingMode::Simple.fallback(entities.take(i as int)),
                decreases live.len() - i,
            {
                let ghost before = entries(fallback);
                let id = live[i].entity;
                assert(live[i as int]@ == entities[i as int]);
                map_entity(&mut fallback, id, id);
                proof {
                    let seen = entities.take(i as int);
                    let more = entities.take(i as int + 1);
                    assert(more[i as int] == entities[i as int]);
                    assert forall|x: u32| is_live(more, x) <==> (is_live(seen, x) || x == id) by {
                        if is_live(more, x) {
                            let k = choose|k: int|
                                0 <= k < more.len() && (#[trigger] more[k]).entity == x;
                            if k < i {
                                assert(seen[k] == more[k]);
                            }
                        }
                        if is_live(seen, x) {
                            let k = choose|k: int|
                                0 <= k < seen.len() && (#[trigger] seen[k]).entity == x;
                            assert(more[k] == seen[k]);
                        }
                    }
                    assert(entries(fallback) =~= MappingMode::Simple.fallback(more));
                }
                i += 1;
            }
            assert(entities.take(live.len() as int) =~= entities);
        },
        MappingMode::Strict => {},
    }
    fallback
}

/// Applies `components` to the entity `target` in their order, up to the
/// first error.
pub fn apply_components(
    scene: &mut Scene,
    registry: &TypeRegistry,
    target: u32,
    components: &Vec<TypedValue>,
) -> (res: Result<(), SaveableError>)
    ensures
        (Outcome { scene: final(scene)@, error: error_of(res) }) == apply_components_from(
            old(scene)@,
            registry@,
            target,
            components.deep_view(),
            0,
        ),
{
    let ghost goal = apply_components_from(
        old(scene)@,
        registry@,
        target,
        components.deep_view(),
        0,
    );
    let mut i: usize = 0;
    while i < components.len()
        invariant
            i <= components.len(),
            goal == apply_components_from(
                old(scene)@,
                registry@,
                target,
                components.deep_view(),
                0,
            ),
            apply_components_from(scene@, registry@, target, components.deep_view(), i as int)
                == goal,
        decreases components.len() - i,
    {
        let component = &components[i];
        assert(component@ == components.deep_view()[i as int]);
        let reg = match registry.get_with_name(&component.name) {
            Some(reg) => reg,
            None => {
                return Err(SaveableError::UnregisteredType { name: component.name.clone() });
            },
        };
        if !reg.component {
            return Err(SaveableError::UnregisteredComponent { name: component.name.clone() });
        }
        let _ = scene.insert_component(target, component.clone_value());
        i += 1;
    }
    Ok(())
}

/// Applies the entities `records` of a snapshot in their order, up to the
/// first error: each to the live entity that the entity map or else the
/// fallback names, or to a newly spawned one.
pub fn apply_entities(
    scene: &mut Scene,
    registry: &TypeRegistry,
    records: &Vec<SaveableEntity>,
    entity_map: &EntityMap,
    fallback: &EntityMap,
) -> (res: Result<(), SaveableError>)
    requires
        old(scene)@.next + records.len() <= IDENTITIES,
    ensures
        (Outcome { scene: final(scene)@, error: error_of(res) }) == apply_entities_from(
            old(scene)@,
            registry@,
            records.deep_view(),
            entries(*entity_map),
            entries(*fallback),
            0,
        ),
{
    let ghost goal = apply_entities_from(
        old(scene)@,
        registry@,
        records.deep_view(),
        entries(*entity_map),
        entries(*fallback),
        0,
    );
    let mut i: usize = 0;
    while i < records.len()
        invariant
            i <= records.len(),
            scene@.next + (records.len() - i) <= IDENTITIES,
            goal == apply_entities_from(
                old(scene)@,
                registry@,
                records.deep_view(),
                entries(*entity_map),
                entries(*fallback),
                0,
            ),
            apply_entities_from(
                scene@,
                registry@,
                records.deep_view(),
                entries(*entity_map),
                entries(*fallback),
                i as int,
            ) == goal,
        decreases records.len() - i,
    {
        let record = &records[i];
        assert(record@ == records.deep_view()[i as int]);
        let ghost before = scene@;
        let target = match record.map(entity_map) {
            Some(target) => target,
            None => match mapped_entity(fallback, record.entity) {
                Some(target) => target,
                None => scene.spawn_empty(),
            },
        };
        let ghost started = scene@;
        let applied = apply_components(scene, registry, target, &record.components);
        proof {
            lemma_apply_components_next(
                started,
                registry@,
                target,
                record@.components,
                0,
            );
        }
        if let Err(e) = applied {
            return Err(e);
        }
        i += 1;
    }
    Ok(())
}

/// Rewrites the entity references in the values of every registered type,
/// in the order of the registry, up to the first failure.
pub fn map_all_entities(
    scene: &mut Scene,
    registry: &TypeRegistry,
    entity_map: &EntityMap,
) -> (res: Result<(), SaveableError>)
    ensures
        (Outcome { scene: final(scene)@, error: error_of(res) }) == map_all_entities_from(
            old(scene)@,
            registry@,
            entries(*entity_map),
            0,
        ),
{
    let ghost goal = map_all_entities_from(old(scene)@, registry@, entries(*entity_map), 0);
    let mut i: usize = 0;
    while i < registry.len()
        invariant
            i <= registry@.len(),
            goal == map_all_entities_from(old(scene)@, registry@, entries(*entity_map), 0),
            map_all_entities_from(scene@, registry@, entries(*entity_map), i as int) == goal,
        decreases registry@.len() - i,
    {
        if let Err(e) = scene.map_entities(registry.get(i), entity_map) {
            return Err(SaveableError::MapEntitiesError(e));
        }
        i += 1;
    }
    Ok(())
}

/// Applying components hands out no identity.
pub proof fn lemma_apply_components_next(
    scene: SceneView,
    registry: Seq<TypeRegistration>,
    target: u32,
    components: Seq<ValueView>,
    from: int,
)
    requires
        0 <= from,
    ensures
        apply_components_from(scene, registry, target, components, from).scene.next == scene.next,
    decreases components.len() - from,
{
    if from < components.len() {
        let value = components[from];
        match lookup(registry, value.name) {
            None => {},
            Some(reg) => if reg.component {
                lemma_apply_components_next(
                    scene.insert_component(target, value),
                    registry,
                    target,
                    components,
                    from + 1,
                );
            },
        }
    }
}

/// Applies `snapshot` to the scene of `world` under `entity_map`, with the
/// despawn mode `despawn` and the mapping mode `mapping`. What was applied
/// before an error stays.
pub fn apply_raw<F: EntityFilter>(
    world: &mut World,
    snapshot: &RawSnapshot,
    entity_map: &EntityMap,
    despawn: &DespawnMode<F>,
    mapping: &MappingMode,
) -> (res: Result<(), SaveableError>)
    requires
        can_apply(
            old(world).scene@,
            old(world).registry@,
            snapshot@,
            entries(*entity_map),
            *despawn,
        ),
    ensures
        (Outcome { scene: final(world).scene@, error: error_of(res) }) == apply_snapshot(
            old(world).scene@,
            old(world).registry@,
            snapshot@,
            entries(*entity_map),
            *despawn,
            *mapping,
        ),
        final(world).registry == old(world).registry,
        final(world).saveables == old(world).saveables,
        final(world).rollbacks == old(world).rollbacks,
{
    let ghost before = world.scene@;
    proof {
        use_type_invariant(&world.scene);
        lemma_apply_resources(
            before,
            world.registry@,
            snapshot@.resources,
            entries(*entity_map),
            0,
        );
    }
    if let Err(e) = apply_resources(
        &mut world.scene,
        &world.registry,
        &snapshot.resources,
        entity_map,
    ) {
        return Err(e);
    }
    despawn_entities(&mut world.scene, &snapshot.entities, entity_map, despawn);
    let fallback = fallback_of(&world.scene, mapping);
    if let Err(e) = apply_entities(
        &mut world.scene,
        &world.registry,
        &snapshot.entities,
        entity_map,
        &fallback,
    ) {
        return Err(e);
    }
    map_all_entities(&mut world.scene, &world.registry, entity_map)
}

/// Inserting a resource keeps the invariant, the entities and the next identity.
pub proof fn lemma_insert_resource(scene: SceneView, value: ValueView)
    requires
        scene.wf(),
    ensures
        scene.insert_resource(value).wf(),
{
    lemma_put_value(scene.resources, value);
}

/// Applying resources keeps the invariant, the identities of the entities
/// and the next identity.
pub proof fn lemma_apply_resources(
    scene: SceneView,
    registry: Seq<TypeRegistration>,
    resources: Seq<ValueView>,
    entity_map: Map<u32, u32>,
    from: int,
)
    requires
        scene.wf(),
        0 <= from,
    ensures
        apply_resources_from(scene, registry, resources, entity_map, from).scene.wf(),
        apply_resources_from(scene, registry, resources, entity_map, from).scene.identities()
            == scene.identities(),
        apply_resources_from(scene, registry, resources, entity_map, from).scene.next
            == scene.next,
    decreases resources.len() - from,
{
    if from < resources.len() {
        let value = resources[from];
        match lookup(registry, value.name) {
            None => {},
            Some(reg) => if reg.resource {
                lemma_insert_resource(scene, value);
                lemma_map_entities(scene.insert_resource(value), reg, entity_map);
                let first = apply_resource(scene, registry, value, entity_map);
                if first.error is None {
                    lemma_apply_resources(first.scene, registry, resources, entity_map, from + 1);
                }
            },
        }
    }
}

/// With an empty entity map, a snapshot can be applied as soon as the
/// identities suffice.
pub proof fn lemma_can_apply_unmapped<F: EntityFilter>(
    scene: SceneView,
    registry: Seq<TypeRegistration>,
    snapshot: SnapshotView,
    despawn: DespawnMode<F>,
)
    requires
        scene.next + snapshot.entities.len() <= IDENTITIES,
    ensures
        can_apply(scene, registry, snapshot, no_entries(), despawn),
{
}

} // verus!
