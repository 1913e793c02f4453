//! The general properties of capturing and applying, proved from the
//! definitions of the steps.

use crate::apply::{
    apply_components_from, apply_entities_from, apply_entity, apply_resources_from,
    apply_snapshot, lemma_apply_resources, map_all_entities_from, Outcome,
};
use crate::capture::CaptureRule;
use crate::entity::{no_entries, try_map_identity, EntityView, MapEntitiesError};
use crate::error::ErrorView;
use crate::filter::EntityFilter;
use crate::lemmas::{
    all_reused, lemma_apply_components, lemma_apply_components_prefix, lemma_apply_entities,
    lemma_apply_entities_prefix, lemma_apply_entities_settle, lemma_apply_entities_settled,
    lemma_apply_entities_spawned, lemma_apply_resources_overlay, lemma_captured_components,
    lemma_captured_resources, lemma_extends_live, lemma_extends_transitive,
    lemma_map_all_entities, lemma_map_all_entities_inert, lemma_overlay_absorbed,
    lemma_overlay_holds, lemma_overlay_next, lemma_same_identities_extend, lemma_spawn_empty,
    overlay_from, settled,
};
use crate::policy::{present_identities, resolve, DespawnMode, MappingMode};
use crate::registry::{distinct_saveables, lookup, TypeRegistration};
use crate::rollbacks::RollbacksView;
use crate::snapshot::{restored_rollbacks, SnapshotView};
use crate::value::{distinct_types, ValueView};
use crate::world::{
    distinct_entities, is_live, lemma_despawn_all, lemma_entity_count, lemma_find_entity,
    lemma_without, lemma_without_live, lemma_without_none, without, SceneView, IDENTITIES,
};
use vstd::prelude::*;

verus! {

/// The outcome of the first step of an apply, which applies the resources.
pub open spec fn after_resources(
    scene: SceneView,
    registry: Seq<TypeRegistration>,
    snapshot: SnapshotView,
    entity_map: Map<u32, u32>,
) -> Outcome {
    apply_resources_from(scene, registry, snapshot.resources, entity_map, 0)
}

/// The scene after the resources were applied and the doomed entities despawned.
pub open spec fn after_despawn<F: EntityFilter>(
    scene: SceneView,
    registry: Seq<TypeRegistration>,
    snapshot: SnapshotView,
    entity_map: Map<u32, u32>,
    despawn: DespawnMode<F>,
) -> SceneView {
    let resources = after_resources(scene, registry, snapshot, entity_map).scene;
    resources.despawn_all(despawn.doomed(resources.entities, snapshot.entities, entity_map))
}

/// The outcome of applying the entities of the snapshot before the one at `index`.
pub open spec fn entities_before<F: EntityFilter>(
    scene: SceneView,
    registry: Seq<TypeRegistration>,
    snapshot: SnapshotView,
    entity_map: Map<u32, u32>,
    despawn: DespawnMode<F>,
    mapping: MappingMode,
    index: int,
) -> Outcome {
    let despawned = after_despawn(scene, registry, snapshot, entity_map, despawn);
    apply_entities_from(
        despawned,
        registry,
        snapshot.entities.take(index),
        entity_map,
        mapping.fallback(despawned.entities),
        0,
    )
}

/// The outcome of applying, after the entities before the one at `index`,
/// the components of that entity before the one at `component`.
pub open spec fn components_before<F: EntityFilter>(
    scene: SceneView,
    registry: Seq<TypeRegistration>,
    snapshot: SnapshotView,
    entity_map: Map<u32, u32>,
    despawn: DespawnMode<F>,
    mapping: MappingMode,
    index: int,
    component: int,
) -> Outcome {
    let despawned = after_despawn(scene, registry, snapshot, entity_map, despawn);
    apply_entity(
        entities_before(scene, registry, snapshot, entity_map, despawn, mapping, index).scene,
        registry,
        EntityView {
            entity: snapshot.entities[index].entity,
            components: snapshot.entities[index].components.take(component),
        },
        entity_map,
        mapping.fallback(despawned.entities),
    )
}

/// Whether rewriting entity references under an empty entity map leaves
/// every value of the type of `reg` as it is.
pub open spec fn inert(reg: TypeRegistration) -> bool {
    reg.map_entities matches Some(mapper) ==> forall|data: Seq<u8>|
        #[trigger] mapper.mapped(data, no_entries()) == Ok::<
            Seq<u8>,
            MapEntitiesError,
        >(data)
}

/// Whether every registered type is inert.
pub open spec fn all_inert(registry: Seq<TypeRegistration>) -> bool {
    forall|k: int| 0 <= k < registry.len() ==> inert(#[trigger] registry[k])
}

/// Whether every value is of a type that is registered as a resource.
pub open spec fn all_resources(registry: Seq<TypeRegistration>, values: Seq<ValueView>) -> bool {
    forall|j: int|
        0 <= j < values.len() ==> lookup(registry, (#[trigger] values[j]).name) is Some && lookup(
            registry,
            values[j].name,
        )->0.resource
}

/// Whether every value from the index `from` on is of a type that is
/// registered as a component.
pub open spec fn all_components_from(
    registry: Seq<TypeRegistration>,
    values: Seq<ValueView>,
    from: int,
) -> bool {
    forall|j: int|
        from <= j < values.len() ==> lookup(registry, (#[trigger] values[j]).name) is Some
            && lookup(registry, values[j].name)->0.component
}

/// Whether every entity has components of distinct, registered component types.
pub open spec fn all_records_apply(registry: Seq<TypeRegistration>, records: Seq<EntityView>) -> bool {
    forall|i: int|
        0 <= i < records.len() ==> distinct_types((#[trigger] records[i]).components)
            && all_components_from(registry, records[i].components, 0)
}

/// The scene without entities and resources.
pub open spec fn empty_scene() -> SceneView {
    SceneView { resources: Seq::empty(), entities: Seq::empty(), next: 0 }
}

/// `after` has the entities of `before` under their identities and in their
/// places, and behind them only entities with identities that `before` had
/// not handed out yet.
pub open spec fn extends(before: SceneView, after: SceneView) -> bool {
    &&& before.entities.len() <= after.entities.len()
    &&& before.next <= after.next
    &&& forall|k: int|
        0 <= k < before.entities.len() ==> (#[trigger] after.entities[k]).entity
            == before.entities[k].entity
    &&& forall|k: int|
        before.entities.len() <= k < after.entities.len() ==> before.next <= (
        #[trigger] after.entities[k]).entity < after.next
}

/// Whatever the settings and whether it goes through or not, applying a
/// snapshot keeps the invariant of the scene.
pub proof fn law_apply_keeps_the_invariant<F: EntityFilter>(
    scene: SceneView,
    registry: Seq<TypeRegistration>,
    snapshot: SnapshotView,
    entity_map: Map<u32, u32>,
    despawn: DespawnMode<F>,
    mapping: MappingMode,
)
    requires
        scene.wf(),
        scene.next + snapshot.entities.len() <= IDENTITIES,
    ensures
        apply_snapshot(scene, registry, snapshot, entity_map, despawn, mapping).scene.wf(),
{
    let resources = after_resources(scene, registry, snapshot, entity_map);
    lemma_apply_resources(scene, registry, snapshot.resources, entity_map, 0);
    if resources.error is None {
        let dead = despawn.doomed(resources.scene.entities, snapshot.entities, entity_map);
        let despawned = resources.scene.despawn_all(dead);
        lemma_despawn_all(resources.scene, dead);
        let fallback = mapping.fallback(despawned.entities);
        let entities = apply_entities_from(
            despawned,
            registry,
            snapshot.entities,
            entity_map,
            fallback,
            0,
        );
        lemma_apply_entities(despawned, registry, snapshot.entities, entity_map, fallback, 0);
        if entities.error is None {
            lemma_map_all_entities(entities.scene, registry, entity_map, 0);
        }
    }
}

/// Whatever the settings, an entity that was live before an apply is gone
/// after it exactly if the apply reached the despawn and the despawn mode
/// doomed the entity: no other step despawns, and no spawned entity takes
/// the identity of an entity that was despawned.
pub proof fn law_apply_accounts_for_every_entity<F: EntityFilter>(
    scene: SceneView,
    registry: Seq<TypeRegistration>,
    snapshot: SnapshotView,
    entity_map: Map<u32, u32>,
    despawn: DespawnMode<F>,
    mapping: MappingMode,
    entity: u32,
)
    requires
        scene.wf(),
        scene.next + snapshot.entities.len() <= IDENTITIES,
        is_live(scene.entities, entity),
    ensures
        after_resources(scene, registry, snapshot, entity_map).error is Some ==> is_live(
            apply_snapshot(scene, registry, snapshot, entity_map, despawn, mapping).scene.entities,
            entity,
        ),
        after_resources(scene, registry, snapshot, entity_map).error is None ==> (is_live(
            apply_snapshot(scene, registry, snapshot, entity_map, despawn, mapping).scene.entities,
            entity,
        ) <==> !despawn.doomed(
            after_resources(scene, registry, snapshot, entity_map).scene.entities,
            snapshot.entities,
            entity_map,
        ).contains(entity)),
{
    let resources = after_resources(scene, registry, snapshot, entity_map);
    lemma_apply_resources(scene, registry, snapshot.resources, entity_map, 0);
    lemma_same_identities_extend(scene, resources.scene);
    lemma_extends_live(scene, resources.scene, entity);
    if resources.error is None {
        let dead = despawn.doomed(resources.scene.entities, snapshot.entities, entity_map);
        let despawned = resources.scene.despawn_all(dead);
        lemma_despawn_all(resources.scene, dead);
        lemma_without_live(resources.scene.entities, dead, entity);
        let fallback = mapping.fallback(despawned.entities);
        let entities = apply_entities_from(
            despawned,
            registry,
            snapshot.entities,
            entity_map,
            fallback,
            0,
        );
        lemma_apply_entities(despawned, registry, snapshot.entities, entity_map, fallback, 0);
        lemma_extends_live(despawned, entities.scene, entity);
        assert(entity < despawned.next) by {
            let k = choose|k: int|
                0 <= k < scene.entities.len() && (#[trigger] scene.entities[k]).entity == entity;
        }
        if entities.error is None {
            let out = map_all_entities_from(entities.scene, registry, entity_map, 0);
            lemma_map_all_entities(entities.scene, registry, entity_map, 0);
            lemma_same_identities_extend(entities.scene, out.scene);
            lemma_same_identities_extend(out.scene, entities.scene);
            lemma_extends_live(entities.scene, out.scene, entity);
            lemma_extends_live(out.scene, entities.scene, entity);
        }
    }
}

/// With the mode `Missing`, a live entity outlasts an apply that reaches the
/// despawn exactly if its identity stands for an entity of the snapshot:
/// it is what the entity map gives to one of them, or the identity of one
/// that the map has no entry for. With an empty entity map, then, the live
/// entities whose identities the snapshot lacks are despawned, and those
/// whose identities it holds are kept. What the entity's components hold is
/// of no account.
pub proof fn law_missing_despawns_what_the_snapshot_lacks(
    scene: SceneView,
    registry: Seq<TypeRegistration>,
    snapshot: SnapshotView,
    entity_map: Map<u32, u32>,
    mapping: MappingMode,
    entity: u32,
)
    requires
        scene.wf(),
        scene.next + snapshot.entities.len() <= IDENTITIES,
        is_live(scene.entities, entity),
        after_resources(scene, registry, snapshot, entity_map).error is None,
    ensures
        is_live(
            apply_snapshot(
                scene,
                registry,
                snapshot,
                entity_map,
                DespawnMode::<()>::Missing,
                mapping,
            ).scene.entities,
            entity,
        ) <==> present_identities(snapshot.entities, entity_map).contains(entity),
        entity_map == no_entries() ==> (is_live(
            apply_snapshot(
                scene,
                registry,
                snapshot,
                entity_map,
                DespawnMode::<()>::Missing,
                mapping,
            ).scene.entities,
            entity,
        ) <==> is_live(snapshot.entities, entity)),
{
    let despawn = DespawnMode::<()>::Missing;
    law_present_identities_unmapped(snapshot.entities, entity);
    law_apply_accounts_for_every_entity(
        scene,
        registry,
        snapshot,
        entity_map,
        despawn,
        mapping,
        entity,
    );
    let resources = after_resources(scene, registry, snapshot, entity_map);
    lemma_apply_resources(scene, registry, snapshot.resources, entity_map, 0);
    lemma_same_identities_extend(scene, resources.scene);
    lemma_extends_live(scene, resources.scene, entity);
    let k = choose|k: int|
        0 <= k < resources.scene.entities.len() && (#[trigger] resources.scene.entities[k]).entity
            == entity;
    assert(despawn.dooms(snapshot.entities, entity_map, resources.scene.entities[k])
        == !present_identities(snapshot.entities, entity_map).contains(entity));
}

/// With an empty entity map, the identities that stand for the entities of
/// a snapshot are the identities of those entities.
pub proof fn law_present_identities_unmapped(snapshot: Seq<EntityView>, entity: u32)
    ensures
        present_identities(snapshot, no_entries()).contains(entity) <==> is_live(
            snapshot,
            entity,
        ),
{
    let none = no_entries();
    if present_identities(snapshot, none).contains(entity) {
        let i = choose|i: int|
            0 <= i < snapshot.len() && try_map_identity(none, (#[trigger] snapshot[i]).entity)
                == entity;
        assert(snapshot[i].entity == entity);
    }
    if is_live(snapshot, entity) {
        let i = choose|i: int| 0 <= i < snapshot.len() && (#[trigger] snapshot[i]).entity == entity;
        assert(try_map_identity(none, snapshot[i].entity) == entity);
    }
}

/// With the mode `KeepAll`, an apply despawns nothing, whether it goes
/// through or not: every entity keeps its identity and its place, so the
/// number of entities never goes down; it goes up where entities are spawned.
pub proof fn law_keep_all_keeps_every_entity(
    scene: SceneView,
    registry: Seq<TypeRegistration>,
    snapshot: SnapshotView,
    entity_map: Map<u32, u32>,
    mapping: MappingMode,
)
    requires
        scene.wf(),
        scene.next + snapshot.entities.len() <= IDENTITIES,
    ensures
        extends(
            scene,
            apply_snapshot(
                scene,
                registry,
                snapshot,
                entity_map,
                DespawnMode::<()>::KeepAll,
                mapping,
            ).scene,
        ),
        apply_snapshot(
            scene,
            registry,
            snapshot,
            entity_map,
            DespawnMode::<()>::KeepAll,
            mapping,
        ).scene.entities.len() >= scene.entities.len(),
{
    let despawn = DespawnMode::<()>::KeepAll;
    let resources = after_resources(scene, registry, snapshot, entity_map);
    lemma_apply_resources(scene, registry, snapshot.resources, entity_map, 0);
    lemma_same_identities_extend(scene, resources.scene);
    if resources.error is None {
        let dead = despawn.doomed(resources.scene.entities, snapshot.entities, entity_map);
        lemma_without_none(resources.scene.entities, dead);
        let despawned = resources.scene.despawn_all(dead);
        assert(despawned == resources.scene);
        let fallback = mapping.fallback(despawned.entities);
        let entities = apply_entities_from(
            despawned,
            registry,
            snapshot.entities,
            entity_map,
            fallback,
            0,
        );
        lemma_apply_entities(despawned, registry, snapshot.entities, entity_map, fallback, 0);
        lemma_extends_transitive(scene, resources.scene, entities.scene);
        if entities.error is None {
            let out = map_all_entities_from(entities.scene, registry, entity_map, 0);
            lemma_map_all_entities(entities.scene, registry, entity_map, 0);
            lemma_same_identities_extend(entities.scene, out.scene);
            lemma_extends_transitive(scene, entities.scene, out.scene);
        }
    }
}

/// An entity of a snapshot whose identity is live when the fallback is
/// taken goes, with the simple mapping and an empty entity map, to the live
/// entity of that identity, and nothing is spawned for it. With the strict
/// mapping it goes to a newly spawned entity, whose identity no entity had,
/// though an entity of its own identity is live.
pub proof fn law_identity_reuse(
    despawned: SceneView,
    scene: SceneView,
    registry: Seq<TypeRegistration>,
    record: EntityView,
)
    requires
        scene.wf(),
        scene.next < IDENTITIES,
        is_live(despawned.entities, record.entity),
    ensures
        apply_entity(
            scene,
            registry,
            record,
            no_entries(),
            MappingMode::Simple.fallback(despawned.entities),
        ) == apply_components_from(scene, registry, record.entity, record.components, 0),
        apply_entity(
            scene,
            registry,
            record,
            no_entries(),
            MappingMode::Simple.fallback(despawned.entities),
        ).scene.identities() == scene.identities(),
        apply_entity(
            scene,
            registry,
            record,
            no_entries(),
            MappingMode::Strict.fallback(despawned.entities),
        ) == apply_components_from(
            scene.spawn_empty(),
            registry,
            scene.next as u32,
            record.components,
            0,
        ),
        apply_entity(
            scene,
            registry,
            record,
            no_entries(),
            MappingMode::Strict.fallback(despawned.entities),
        ).scene.identities() == scene.identities().push(scene.next as u32),
        !is_live(scene.entities, scene.next as u32),
{
    lemma_apply_components(scene, registry, record.entity, record.components, 0);
    lemma_spawn_empty(scene);
    lemma_apply_components(
        scene.spawn_empty(),
        registry,
        scene.next as u32,
        record.components,
        0,
    );
    assert(scene.spawn_empty().identities() =~= scene.identities().push(scene.next as u32));
}

/// An apply ends at the first component whose type is not registered: where
/// the resources, the entities before the entity at `index` and its
/// components before the one at `component` went through, the error names
/// that component's type, and the scene is what those entities and
/// components made of it. Nothing of the entities after it is applied, and
/// no entity references are rewritten.
pub proof fn law_unregistered_type_stops_the_apply<F: EntityFilter>(
    scene: SceneView,
    registry: Seq<TypeRegistration>,
    snapshot: SnapshotView,
    entity_map: Map<u32, u32>,
    despawn: DespawnMode<F>,
    mapping: MappingMode,
    index: int,
    component: int,
)
    requires
        0 <= index < snapshot.entities.len(),
        0 <= component < snapshot.entities[index].components.len(),
        lookup(registry, snapshot.entities[index].components[component].name) is None,
        after_resources(scene, registry, snapshot, entity_map).error is None,
        entities_before(scene, registry, snapshot, entity_map, despawn, mapping, index).error
            is None,
        components_before(
            scene,
            registry,
            snapshot,
            entity_map,
            despawn,
            mapping,
            index,
            component,
        ).error is None,
    ensures
        apply_snapshot(scene, registry, snapshot, entity_map, despawn, mapping) == Outcome::failed(
            components_before(
                scene,
                registry,
                snapshot,
                entity_map,
                despawn,
                mapping,
                index,
                component,
            ).scene,
            ErrorView::UnregisteredType {
                name: snapshot.entities[index].components[component].name,
            },
        ),
{
    let despawned = after_despawn(scene, registry, snapshot, entity_map, despawn);
    let fallback = mapping.fallback(despawned.entities);
    let records = snapshot.entities;
    let before = entities_before(scene, registry, snapshot, entity_map, despawn, mapping, index);
    lemma_apply_entities_prefix(despawned, registry, records, entity_map, fallback, 0, index);
    let record = records[index];
    let started = match resolve(entity_map, fallback, record.entity) {
        Some(target) => before.scene,
        None => before.scene.spawn_empty(),
    };
    let target = match resolve(entity_map, fallback, record.entity) {
        Some(target) => target,
        None => before.scene.next as u32,
    };
    lemma_apply_components_prefix(started, registry, target, record.components, 0, component);
}

/// A capture of a scene holds, for every type that the rule takes, the
/// resource of the scene and the components of each entity, and nothing
/// else; no type comes twice among the resources or the components of one
/// entity, and every type is registered for its use.
pub proof fn law_capture_is_sound(scene: SceneView, rule: CaptureRule)
    requires
        scene.wf(),
        distinct_saveables(rule.saveables),
    ensures
        distinct_types(rule.capture(scene).resources),
        all_resources(rule.registry, rule.capture(scene).resources),
        all_records_apply(rule.registry, rule.capture(scene).entities),
        rule.capture(scene).entities.len() == scene.entities.len(),
        forall|i: int|
            0 <= i < scene.entities.len() ==> (#[trigger] rule.capture(scene).entities[i]).entity
                == scene.entities[i].entity,
        distinct_entities(rule.capture(scene).entities),
{
    let snapshot = rule.capture(scene);
    lemma_captured_resources(rule, scene.resources, 0);
    assert forall|i: int| 0 <= i < snapshot.entities.len() implies distinct_types(
        (#[trigger] snapshot.entities[i]).components,
    ) && all_components_from(rule.registry, snapshot.entities[i].components, 0) by {
        assert(distinct_types(scene.entities[i].components));
        lemma_captured_components(rule, scene.entities[i].components, 0);
    }
    assert forall|i: int, j: int| 0 <= i < j < snapshot.entities.len() implies (
    #[trigger] snapshot.entities[i]).entity != (#[trigger] snapshot.entities[j]).entity by {
        assert(scene.entities[i].entity != scene.entities[j].entity);
    }
}

/// A snapshot whose values are of distinct, registered types, applied to a
/// scene without entities and resources with an empty entity map, the mode
/// `KeepAll` and the strict mapping, goes through where every registered
/// type is inert, and the scene then holds what the snapshot holds: its
/// resources, and for each of its entities, in their order, an entity with
/// its components. Only the identities are new.
pub proof fn law_apply_to_an_empty_scene(
    registry: Seq<TypeRegistration>,
    snapshot: SnapshotView,
)
    requires
        snapshot.entities.len() <= IDENTITIES,
        distinct_types(snapshot.resources),
        all_resources(registry, snapshot.resources),
        all_records_apply(registry, snapshot.entities),
        all_inert(registry),
    ensures
        ({
            let out = apply_snapshot(
                empty_scene(),
                registry,
                snapshot,
                no_entries(),
                DespawnMode::<()>::KeepAll,
                MappingMode::Strict,
            );
            &&& out.error is None
            &&& out.scene.resources == snapshot.resources
            &&& out.scene.entities.len() == snapshot.entities.len()
            &&& forall|i: int|
                0 <= i < snapshot.entities.len() ==> (#[trigger] out.scene.entities[i]).components
                    == snapshot.entities[i].components
        }),
{
    let none = no_entries();
    let empty = empty_scene();
    assert(empty.resources =~= snapshot.resources.take(0));
    lemma_apply_resources_overlay(empty, registry, snapshot.resources, 0);
    lemma_overlay_next(snapshot.resources, 0);
    let resources = SceneView { resources: snapshot.resources, ..empty };
    let despawn = DespawnMode::<()>::KeepAll;
    let dead = despawn.doomed(resources.entities, snapshot.entities, none);
    lemma_without_none(resources.entities, dead);
    let despawned = resources.despawn_all(dead);
    assert(despawned == resources);
    assert(MappingMode::Strict.fallback(despawned.entities) == none);
    assert(resources.wf());
    lemma_apply_entities_spawned(resources, registry, snapshot.entities, 0);
    let entities = apply_entities_from(resources, registry, snapshot.entities, none, none, 0);
    lemma_map_all_entities_inert(entities.scene, registry, 0);
    let out = apply_snapshot(empty, registry, snapshot, none, despawn, MappingMode::Strict);
    assert(apply_resources_from(empty, registry, snapshot.resources, none, 0) == Outcome::done(
        resources,
    ));
    assert(out == Outcome::done(entities.scene));
    assert forall|i: int| 0 <= i < snapshot.entities.len() implies (
    #[trigger] out.scene.entities[i]).components == snapshot.entities[i].components by {
        assert(out.scene.entities[resources.entities.len() + i - 0].components
            == snapshot.entities[i].components);
    }
}

/// A capture, applied to a scene without entities and resources with an
/// empty entity map, the mode `KeepAll` and the strict mapping, goes through
/// where every registered type is inert, and the scene then holds what the
/// captured scene holds of the types that the rule takes: the same
/// resources, and for each entity, in the same order, an entity with the
/// same components. Only the identities are new.
pub proof fn law_round_trip(scene: SceneView, rule: CaptureRule)
    requires
        scene.wf(),
        distinct_saveables(rule.saveables),
        all_inert(rule.registry),
    ensures
        ({
            let out = apply_snapshot(
                empty_scene(),
                rule.registry,
                rule.capture(scene),
                no_entries(),
                DespawnMode::<()>::KeepAll,
                MappingMode::Strict,
            );
            &&& out.error is None
            &&& out.scene.wf()
            &&& out.scene.resources == rule.resources_from(scene.resources, 0)
            &&& out.scene.entities.len() == scene.entities.len()
            &&& forall|i: int|
                0 <= i < scene.entities.len() ==> (#[trigger] out.scene.entities[i]).components
                    == rule.components_from(scene.entities[i].components, 0)
        }),
{
    let snapshot = rule.capture(scene);
    law_capture_is_sound(scene, rule);
    lemma_entity_count(scene);
    law_apply_to_an_empty_scene(rule.registry, snapshot);
    let out = apply_snapshot(
        empty_scene(),
        rule.registry,
        snapshot,
        no_entries(),
        DespawnMode::<()>::KeepAll,
        MappingMode::Strict,
    );
    law_apply_keeps_the_invariant(
        empty_scene(),
        rule.registry,
        snapshot,
        no_entries(),
        DespawnMode::<()>::KeepAll,
        MappingMode::Strict,
    );
    assert forall|i: int| 0 <= i < scene.entities.len() implies (
    #[trigger] out.scene.entities[i]).components == rule.components_from(
        scene.entities[i].components,
        0,
    ) by {
        assert(out.scene.entities[i].components == snapshot.entities[i].components);
    }
}

/// Applying a snapshot a second time changes nothing. This holds with the
/// default settings (an empty entity map, the mode `Missing` and the simple
/// mapping) of a snapshot whose entities have distinct identities and whose
/// values are of distinct, registered types, where every registered type is
/// inert and every entity of the snapshot is live in the scene, so that the
/// first apply spawns nothing: both applies go through, and the second
/// leaves the scene as the first made it. The rollbacks that come with a
/// complete snapshot are in the place of the world's after the first apply,
/// and stay there.
pub proof fn law_apply_is_idempotent(
    scene: SceneView,
    registry: Seq<TypeRegistration>,
    snapshot: SnapshotView,
    before: RollbacksView,
    rollbacks: RollbacksView,
)
    requires
        scene.wf(),
        distinct_types(snapshot.resources),
        all_resources(registry, snapshot.resources),
        all_records_apply(registry, snapshot.entities),
        distinct_entities(snapshot.entities),
        all_inert(registry),
        forall|i: int|
            0 <= i < snapshot.entities.len() ==> is_live(
                scene.entities,
                (#[trigger] snapshot.entities[i]).entity,
            ),
    ensures
        ({
            let once = apply_snapshot(
                scene,
                registry,
                snapshot,
                no_entries(),
                DespawnMode::<()>::Missing,
                MappingMode::Simple,
            );
            &&& once.error is None
            &&& apply_snapshot(
                once.scene,
                registry,
                snapshot,
                no_entries(),
                DespawnMode::<()>::Missing,
                MappingMode::Simple,
            ) == once
            &&& restored_rollbacks(once, restored_rollbacks(once, before, rollbacks), rollbacks)
                == restored_rollbacks(once, before, rollbacks)
        }),
{
    let none = no_entries();
    let despawn = DespawnMode::<()>::Missing;
    let mapping = MappingMode::Simple;
    let records = snapshot.entities;

    // The first apply.
    lemma_apply_resources_overlay(scene, registry, snapshot.resources, 0);
    let resources = SceneView {
        resources: overlay_from(scene.resources, snapshot.resources, 0),
        ..scene
    };
    lemma_overlay_holds(scene.resources, snapshot.resources, 0);
    assert(resources.wf());
    let dead = despawn.doomed(resources.entities, records, none);
    let despawned = resources.despawn_all(dead);
    lemma_despawn_all(resources, dead);
    lemma_without(resources.entities, dead);
    let fallback = mapping.fallback(despawned.entities);
    assert forall|i: int| 0 <= i < records.len() implies is_live(
        despawned.entities,
        (#[trigger] records[i]).entity,
    ) by {
        let id = records[i].entity;
        assert(try_map_identity(none, records[i].entity) == id);
        assert(present_identities(records, none).contains(id));
        lemma_without_live(resources.entities, dead, id);
    }
    assert(all_reused(despawned, records, fallback));
    lemma_apply_entities_settle(despawned, registry, records, fallback, 0);
    let entities = apply_entities_from(despawned, registry, records, none, fallback, 0);
    lemma_map_all_entities_inert(entities.scene, registry, 0);
    let once = apply_snapshot(scene, registry, snapshot, none, despawn, mapping);
    assert(once == Outcome::done(entities.scene));
    let made = entities.scene;

    // The second apply.
    lemma_apply_resources_overlay(made, registry, snapshot.resources, 0);
    lemma_overlay_absorbed(made.resources, snapshot.resources, 0);
    assert(apply_resources_from(made, registry, snapshot.resources, none, 0) == Outcome::done(
        made,
    ));
    let dead_again = despawn.doomed(made.entities, records, none);
    assert forall|k: int| 0 <= k < made.entities.len() implies !dead_again.contains(
        (#[trigger] made.entities[k]).entity,
    ) by {
        let id = made.entities[k].entity;
        let kept = without(resources.entities, dead);
        assert(made.identities().len() == made.entities.len());
        assert(despawned.identities().len() == despawned.entities.len());
        assert(made.identities()[k] == id);
        assert(despawned.identities()[k] == despawned.entities[k].entity);
        assert(despawned.entities[k].entity == id);
        assert(despawned.entities[k] == kept[k]);
        assert(!dead.contains(kept[k].entity));
        assert(resources.entities.contains(kept[k]));
        let j = choose|j: int|
            0 <= j < resources.entities.len() && resources.entities[j] == despawned.entities[k];
        assert(!despawn.dooms(records, none, resources.entities[j]));
        assert(present_identities(records, none).contains(id));
    }
    lemma_without_none(made.entities, dead_again);
    assert(made.despawn_all(dead_again) == made);
    let fallback_again = mapping.fallback(made.entities);
    assert(all_reused(made, records, fallback_again)) by {
        assert forall|i: int| 0 <= i < records.len() implies is_live(
            made.entities,
            (#[trigger] records[i]).entity,
        ) by {
            assert(settled(made, records[i]));
            lemma_find_entity(made.entities, records[i].entity);
        }
    }
    lemma_apply_entities_settled(made, registry, records, fallback_again, 0);
    lemma_map_all_entities_inert(made, registry, 0);
}

} // verus!
