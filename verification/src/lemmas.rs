//! What the proofs of the laws rest on: how each step of an apply treats the
//! invariant of the scene, its identities and its values.

use crate::apply::{
    apply_components_from, apply_entities_from, apply_entity, apply_resources_from,
    map_all_entities_from, Outcome,
};
use crate::capture::CaptureRule;
use crate::entity::{no_entries, EntityView, MapEntitiesError};
use crate::error::ErrorView;
use crate::filter::EntityFilter;
use crate::policy::{resolve};
use crate::registry::{
    distinct_saveables, find_registration_from, lemma_find_registration_from, lookup,
    TypeRegistration,
};
use crate::snapshot::SnapshotView;
use crate::value::{
    distinct_types, find_type, lemma_find_type, lemma_find_type_from, lemma_put_value,
    put_value, ValueView,
};
use crate::world::{
    distinct_entities, find_entity, find_entity_from, is_live, lemma_find_entity,
    lemma_find_entity_at, lemma_insert_component, lemma_map_entities, rewrite_value, SceneView,
    IDENTITIES,
};
use vstd::prelude::*;
use crate::laws::{
    all_components_from, all_inert, all_records_apply, all_resources, extends, inert,
};

verus! {

/// The components of an entity after `values` were written over them from
/// the index `from` on, in their order.
pub open spec fn overlay_from(components: Seq<ValueView>, values: Seq<ValueView>, from: int) -> Seq<
    ValueView,
>
    decreases values.len() - from,
{
    if from < 0 || from >= values.len() {
        components
    } else {
        overlay_from(put_value(components, values[from]), values, from + 1)
    }
}

/// The scene with `components` as the components of the entity at `index`.
pub open spec fn with_components(scene: SceneView, index: int, components: Seq<ValueView>) -> SceneView {
    SceneView {
        entities: scene.entities.update(
            index,
            EntityView { entity: scene.entities[index].entity, components },
        ),
        ..scene
    }
}

/// Whether `components` holds every one of `values` from the index `from` on.
pub open spec fn holds_all_from(components: Seq<ValueView>, values: Seq<ValueView>, from: int) -> bool {
    forall|j: int| from <= j < values.len() ==> components.contains(#[trigger] values[j])
}

/// Whether the entity of the scene with the identity of `record` holds
/// every component of `record`.
pub open spec fn settled(scene: SceneView, record: EntityView) -> bool {
    find_entity(scene.entities, record.entity) is Some && holds_all_from(
        scene.entities[find_entity(scene.entities, record.entity)->0].components,
        record.components,
        0,
    )
}

/// Whether every entity of `records` goes to the live entity of its own
/// identity: the entity map is empty and the fallback names the identity.
pub open spec fn all_reused(scene: SceneView, records: Seq<EntityView>, fallback: Map<u32, u32>) -> bool {
    forall|i: int|
        0 <= i < records.len() ==> is_live(scene.entities, (#[trigger] records[i]).entity)
            && fallback.contains_key(records[i].entity) && fallback[records[i].entity]
            == records[i].entity
}

/// A scene that extends another keeps every identity live, and has no
/// identity live that the other had handed out and has not.
pub proof fn lemma_extends_live(before: SceneView, after: SceneView, entity: u32)
    requires
        before.wf(),
        extends(before, after),
    ensures
        is_live(before.entities, entity) ==> is_live(after.entities, entity),
        entity < before.next && is_live(after.entities, entity) ==> is_live(
            before.entities,
            entity,
        ),
{
    if is_live(before.entities, entity) {
        let k = choose|k: int|
            0 <= k < before.entities.len() && (#[trigger] before.entities[k]).entity == entity;
        assert(after.entities[k].entity == entity);
    }
    if entity < before.next && is_live(after.entities, entity) {
        let k = choose|k: int|
            0 <= k < after.entities.len() && (#[trigger] after.entities[k]).entity == entity;
        assert(k < before.entities.len());
        assert(before.entities[k].entity == entity);
    }
}

/// Extending goes on: what extends an extension extends the scene itself.
pub proof fn lemma_extends_transitive(first: SceneView, second: SceneView, third: SceneView)
    requires
        extends(first, second),
        extends(second, third),
    ensures
        extends(first, third),
{
    assert forall|k: int| 0 <= k < first.entities.len() implies (#[trigger] third.entities[k]).entity
        == first.entities[k].entity by {
        assert(second.entities[k].entity == first.entities[k].entity);
    }
    assert forall|k: int| first.entities.len() <= k < third.entities.len() implies first.next <= (
    #[trigger] third.entities[k]).entity < third.next by {
        if k < second.entities.len() {
            assert(second.entities[k].entity >= first.next);
            assert(third.entities[k].entity == second.entities[k].entity);
        }
    }
}

/// Applying components keeps the invariant, the identities, the next
/// identity and the resources, whether it goes through or not.
pub proof fn lemma_apply_components(
    scene: SceneView,
    registry: Seq<TypeRegistration>,
    target: u32,
    components: Seq<ValueView>,
    from: int,
)
    requires
        scene.wf(),
        0 <= from,
    ensures
        apply_components_from(scene, registry, target, components, from).scene.wf(),
        apply_components_from(scene, registry, target, components, from).scene.identities()
            == scene.identities(),
        apply_components_from(scene, registry, target, components, from).scene.next == scene.next,
        apply_components_from(scene, registry, target, components, from).scene.resources
            == scene.resources,
    decreases components.len() - from,
{
    if from < components.len() {
        let value = components[from];
        match lookup(registry, value.name) {
            None => {},
            Some(reg) => if reg.component {
                lemma_insert_component(scene, target, value);
                lemma_apply_components(
                    scene.insert_component(target, value),
                    registry,
                    target,
                    components,
                    from + 1,
                );
            },
        }
    }
}

/// Scenes with the same identities and the same next identity extend each other.
pub proof fn lemma_same_identities_extend(before: SceneView, after: SceneView)
    requires
        before.identities() == after.identities(),
        before.next == after.next,
    ensures
        extends(before, after),
{
    assert(before.entities.len() == before.identities().len());
    assert(after.entities.len() == after.identities().len());
    assert forall|k: int| 0 <= k < before.entities.len() implies (#[trigger] after.entities[k]).entity
        == before.entities[k].entity by {
        assert(before.identities()[k] == before.entities[k].entity);
        assert(after.identities()[k] == after.entities[k].entity);
    }
}

/// Applying one entity of a snapshot keeps the invariant and extends the
/// scene by at most one entity.
pub proof fn lemma_apply_entity(
    scene: SceneView,
    registry: Seq<TypeRegistration>,
    record: EntityView,
    entity_map: Map<u32, u32>,
    fallback: Map<u32, u32>,
)
    requires
        scene.wf(),
        scene.next < IDENTITIES,
    ensures
        apply_entity(scene, registry, record, entity_map, fallback).scene.wf(),
        extends(scene, apply_entity(scene, registry, record, entity_map, fallback).scene),
        apply_entity(scene, registry, record, entity_map, fallback).scene.next <= scene.next + 1,
        apply_entity(scene, registry, record, entity_map, fallback).scene.resources
            == scene.resources,
{
    match resolve(entity_map, fallback, record.entity) {
        Some(target) => {
            lemma_apply_components(scene, registry, target, record.components, 0);
            lemma_same_identities_extend(
                scene,
                apply_components_from(scene, registry, target, record.components, 0).scene,
            );
        },
        None => {
            let spawned = scene.spawn_empty();
            lemma_spawn_empty(scene);
            lemma_apply_components(spawned, registry, scene.next as u32, record.components, 0);
            let out = apply_components_from(
                spawned,
                registry,
                scene.next as u32,
                record.components,
                0,
            ).scene;
            lemma_same_identities_extend(spawned, out);
            lemma_extends_transitive(scene, spawned, out);
        },
    }
}

/// Spawning keeps the invariant and extends the scene by one entity.
pub proof fn lemma_spawn_empty(scene: SceneView)
    requires
        scene.wf(),
        scene.next < IDENTITIES,
    ensures
        scene.spawn_empty().wf(),
        extends(scene, scene.spawn_empty()),
        !is_live(scene.entities, scene.next as u32),
{
    let spawned = scene.spawn_empty();
    assert forall|i: int| 0 <= i < spawned.entities.len() implies distinct_types(
        (#[trigger] spawned.entities[i]).components,
    ) && spawned.entities[i].entity < spawned.next by {
        if i < scene.entities.len() {
            assert(spawned.entities[i] == scene.entities[i]);
        }
    }
    assert forall|i: int, j: int| 0 <= i < j < spawned.entities.len() implies (
    #[trigger] spawned.entities[i]).entity != (#[trigger] spawned.entities[j]).entity by {
        assert(spawned.entities[i] == scene.entities[i]);
        if j < scene.entities.len() {
            assert(spawned.entities[j] == scene.entities[j]);
        }
    }
    assert forall|k: int| 0 <= k < scene.entities.len() implies (#[trigger] spawned.entities[k]).entity
        == scene.entities[k].entity by {
        assert(spawned.entities[k] == scene.entities[k]);
    }
}

/// Applying the entities of a snapshot keeps the invariant and extends the
/// scene, whether it goes through or not.
pub proof fn lemma_apply_entities(
    scene: SceneView,
    registry: Seq<TypeRegistration>,
    records: Seq<EntityView>,
    entity_map: Map<u32, u32>,
    fallback: Map<u32, u32>,
    from: int,
)
    requires
        scene.wf(),
        0 <= from,
        from <= records.len() ==> scene.next + (records.len() - from) <= IDENTITIES,
    ensures
        apply_entities_from(scene, registry, records, entity_map, fallback, from).scene.wf(),
        extends(
            scene,
            apply_entities_from(scene, registry, records, entity_map, fallback, from).scene,
        ),
        apply_entities_from(scene, registry, records, entity_map, fallback, from).scene.resources
            == scene.resources,
    decreases records.len() - from,
{
    if from < records.len() {
        let first = apply_entity(scene, registry, records[from], entity_map, fallback);
        lemma_apply_entity(scene, registry, records[from], entity_map, fallback);
        if first.error is None {
            lemma_apply_entities(first.scene, registry, records, entity_map, fallback, from + 1);
            lemma_extends_transitive(
                scene,
                first.scene,
                apply_entities_from(first.scene, registry, records, entity_map, fallback, from + 1).scene,
            );
        }
    } else {
        lemma_same_identities_extend(scene, scene);
    }
}

/// Rewriting the entity references of every registered type keeps the
/// invariant, the identities and the next identity.
pub proof fn lemma_map_all_entities(
    scene: SceneView,
    registry: Seq<TypeRegistration>,
    entity_map: Map<u32, u32>,
    from: int,
)
    requires
        scene.wf(),
        0 <= from,
    ensures
        map_all_entities_from(scene, registry, entity_map, from).scene.wf(),
        map_all_entities_from(scene, registry, entity_map, from).scene.identities()
            == scene.identities(),
        map_all_entities_from(scene, registry, entity_map, from).scene.next == scene.next,
    decreases registry.len() - from,
{
    if from < registry.len() {
        let (rewritten, err) = scene.map_entities(registry[from], entity_map);
        lemma_map_entities(scene, registry[from], entity_map);
        if err is None {
            lemma_map_all_entities(rewritten, registry, entity_map, from + 1);
        }
    }
}

/// Where every component is of a registered component type, applying them
/// to a live entity goes through and leaves the scene as it was but for the
/// components of that entity, which have the applied ones written over them.
pub proof fn lemma_apply_components_overlay(
    scene: SceneView,
    registry: Seq<TypeRegistration>,
    index: int,
    components: Seq<ValueView>,
    from: int,
)
    requires
        scene.wf(),
        0 <= index < scene.entities.len(),
        0 <= from,
        all_components_from(registry, components, from),
    ensures
        apply_components_from(
            scene,
            registry,
            scene.entities[index].entity,
            components,
            from,
        ) == Outcome::done(
            with_components(
                scene,
                index,
                overlay_from(scene.entities[index].components, components, from),
            ),
        ),
    decreases components.len() - from,
{
    let target = scene.entities[index].entity;
    lemma_find_entity_at(scene.entities, index);
    if from < components.len() {
        let value = components[from];
        assert(lookup(registry, components[from].name) is Some);
        let next = scene.insert_component(target, value);
        lemma_insert_component(scene, target, value);
        assert(next.entities[index].entity == target);
        lemma_apply_components_overlay(next, registry, index, components, from + 1);
        assert(with_components(
            next,
            index,
            overlay_from(next.entities[index].components, components, from + 1),
        ).entities =~= with_components(
            scene,
            index,
            overlay_from(scene.entities[index].components, components, from),
        ).entities);
    } else {
        assert(with_components(scene, index, scene.entities[index].components).entities
            =~= scene.entities);
    }
}

/// The outcome of applying entities is the outcome of applying the first
/// `upto` of them and then, where that went through, the others.
pub proof fn lemma_apply_entities_prefix(
    scene: SceneView,
    registry: Seq<TypeRegistration>,
    records: Seq<EntityView>,
    entity_map: Map<u32, u32>,
    fallback: Map<u32, u32>,
    from: int,
    upto: int,
)
    requires
        0 <= from <= upto <= records.len(),
    ensures
        apply_entities_from(scene, registry, records, entity_map, fallback, from) == ({
            let first = apply_entities_from(
                scene,
                registry,
                records.take(upto),
                entity_map,
                fallback,
                from,
            );
            if first.error is Some {
                first
            } else {
                apply_entities_from(first.scene, registry, records, entity_map, fallback, upto)
            }
        }),
    decreases upto - from,
{
    if from < upto {
        assert(records.take(upto)[from] == records[from]);
        let first = apply_entity(scene, registry, records[from], entity_map, fallback);
        if first.error is None {
            lemma_apply_entities_prefix(
                first.scene,
                registry,
                records,
                entity_map,
                fallback,
                from + 1,
                upto,
            );
        }
    }
}

/// The outcome of applying components is the outcome of applying the first
/// `upto` of them and then, where that went through, the others.
pub proof fn lemma_apply_components_prefix(
    scene: SceneView,
    registry: Seq<TypeRegistration>,
    target: u32,
    components: Seq<ValueView>,
    from: int,
    upto: int,
)
    requires
        0 <= from <= upto <= components.len(),
    ensures
        apply_components_from(scene, registry, target, components, from) == ({
            let first = apply_components_from(scene, registry, target, components.take(upto), from);
            if first.error is Some {
                first
            } else {
                apply_components_from(first.scene, registry, target, components, upto)
            }
        }),
    decreases upto - from,
{
    if from < upto {
        assert(components.take(upto)[from] == components[from]);
        let value = components[from];
        match lookup(registry, value.name) {
            None => {},
            Some(reg) => if reg.component {
                lemma_apply_components_prefix(
                    scene.insert_component(target, value),
                    registry,
                    target,
                    components,
                    from + 1,
                    upto,
                );
            },
        }
    }
}

/// A registration that `lookup` finds is one of the registry.
pub proof fn lemma_lookup(registry: Seq<TypeRegistration>, name: Seq<char>)
    ensures
        lookup(registry, name) matches Some(reg) ==> registry.contains(reg) && reg.name@ == name,
{
    lemma_find_registration_from(registry, name, 0);
    match find_registration_from(registry, name, 0) {
        Some(i) => {
            assert(registry[i] == lookup(registry, name)->0);
        },
        None => {},
    }
}

/// Writing the value at `index` of values with distinct types over the
/// values before it appends it.
pub proof fn lemma_put_next(values: Seq<ValueView>, index: int)
    requires
        distinct_types(values),
        0 <= index < values.len(),
    ensures
        put_value(values.take(index), values[index]) == values.take(index + 1),
{
    let front = values.take(index);
    lemma_find_type_from(front, values[index].name, 0);
    match find_type(front, values[index].name) {
        Some(i) => {
            assert(front[i] == values[i]);
            assert(values[i].name != values[index].name);
        },
        None => {},
    }
    assert(front.push(values[index]) =~= values.take(index + 1));
}

/// Writing values with distinct types over the first `from` of them, from
/// the index `from` on, gives those values.
pub proof fn lemma_overlay_next(values: Seq<ValueView>, from: int)
    requires
        distinct_types(values),
        0 <= from <= values.len(),
    ensures
        overlay_from(values.take(from), values, from) == values,
    decreases values.len() - from,
{
    if from < values.len() {
        lemma_put_next(values, from);
        lemma_overlay_next(values, from + 1);
    } else {
        assert(values.take(from) =~= values);
    }
}

/// Rewriting under an empty entity map changes no value of an inert type.
pub proof fn lemma_rewrite_inert(values: Seq<ValueView>, reg: TypeRegistration)
    requires
        inert(reg),
    ensures
        rewrite_value(values, reg, no_entries()) == (values, None::<MapEntitiesError>),
{
    lemma_find_type(values, reg.name@);
    match (reg.map_entities, find_type(values, reg.name@)) {
        (Some(mapper), Some(i)) => {
            assert(mapper.mapped(values[i].data, no_entries()) == Ok::<
                Seq<u8>,
                MapEntitiesError,
            >(values[i].data));
            assert(values.update(i, ValueView { name: values[i].name, data: values[i].data })
                =~= values);
        },
        _ => {},
    }
}

/// Rewriting the components under an empty entity map changes nothing for
/// an inert type.
pub proof fn lemma_map_entities_from_inert(scene: SceneView, reg: TypeRegistration, from: int)
    requires
        inert(reg),
        0 <= from,
    ensures
        scene.map_entities_from(reg, no_entries(), from) == (
            scene,
            None::<MapEntitiesError>,
        ),
    decreases scene.entities.len() - from,
{
    if from < scene.entities.len() {
        lemma_rewrite_inert(scene.entities[from].components, reg);
        let next = SceneView {
            entities: scene.entities.update(
                from,
                EntityView {
                    entity: scene.entities[from].entity,
                    components: scene.entities[from].components,
                },
            ),
            ..scene
        };
        assert(next.entities =~= scene.entities);
        lemma_map_entities_from_inert(scene, reg, from + 1);
    }
}

/// Rewriting under an empty entity map changes nothing for an inert type.
pub proof fn lemma_map_entities_inert(scene: SceneView, reg: TypeRegistration)
    requires
        inert(reg),
    ensures
        scene.map_entities(reg, no_entries()) == (scene, None::<MapEntitiesError>),
{
    lemma_rewrite_inert(scene.resources, reg);
    lemma_map_entities_from_inert(scene, reg, 0);
}

/// Rewriting under an empty entity map changes nothing where every
/// registered type is inert.
pub proof fn lemma_map_all_entities_inert(scene: SceneView, registry: Seq<TypeRegistration>, from: int)
    requires
        all_inert(registry),
        0 <= from,
    ensures
        map_all_entities_from(scene, registry, no_entries(), from) == Outcome::done(
            scene,
        ),
    decreases registry.len() - from,
{
    if from < registry.len() {
        lemma_map_entities_inert(scene, registry[from]);
        lemma_map_all_entities_inert(scene, registry, from + 1);
    }
}

/// Entities with components of distinct registered types, applied with an
/// empty entity map and an empty fallback, go through; each is spawned
/// behind the entities that were there, in the order of the snapshot, with
/// just its components.
pub proof fn lemma_apply_entities_spawned(
    scene: SceneView,
    registry: Seq<TypeRegistration>,
    records: Seq<EntityView>,
    from: int,
)
    requires
        scene.wf(),
        0 <= from <= records.len(),
        scene.next + (records.len() - from) <= IDENTITIES,
        all_records_apply(registry, records),
    ensures
        ({
            let out = apply_entities_from(
                scene,
                registry,
                records,
                no_entries(),
                no_entries(),
                from,
            );
            &&& out.error is None
            &&& out.scene.resources == scene.resources
            &&& out.scene.entities.len() == scene.entities.len() + (records.len() - from)
            &&& forall|k: int|
                0 <= k < scene.entities.len() ==> (#[trigger] out.scene.entities[k])
                    == scene.entities[k]
            &&& forall|i: int|
                from <= i < records.len() ==> (#[trigger] out.scene.entities[scene.entities.len()
                    + i - from]).components == records[i].components
        }),
    decreases records.len() - from,
{
    let none = no_entries();
    if from < records.len() {
        let record = records[from];
        let spawned = scene.spawn_empty();
        let index = scene.entities.len() as int;
        lemma_spawn_empty(scene);
        assert(spawned.entities[index].entity == scene.next as u32);
        assert(spawned.entities[index].components =~= record.components.take(0));
        lemma_apply_components_overlay(spawned, registry, index, record.components, 0);
        lemma_overlay_next(record.components, 0);
        let first = apply_entity(scene, registry, record, none, none);
        let made = with_components(spawned, index, record.components);
        assert(first == Outcome::done(made));
        lemma_apply_entity(scene, registry, record, none, none);
        lemma_apply_entities_spawned(made, registry, records, from + 1);
        let out = apply_entities_from(scene, registry, records, none, none, from);
        assert forall|k: int| 0 <= k < scene.entities.len() implies (#[trigger] out.scene.entities[k])
            == scene.entities[k] by {
            assert(made.entities[k] == scene.entities[k]);
        }
        assert forall|i: int| from <= i < records.len() implies (
        #[trigger] out.scene.entities[scene.entities.len() + i - from]).components
            == records[i].components by {
            if i == from {
                assert(out.scene.entities[index] == made.entities[index]);
            } else {
                assert(out.scene.entities[made.entities.len() + i - (from + 1)].components
                    == records[i].components);
            }
        }
    }
}

/// What a capture takes of components: values that the rule takes, each
/// one of the components, and of distinct types where the components are.
pub proof fn lemma_captured_components(rule: CaptureRule, components: Seq<ValueView>, from: int)
    requires
        0 <= from,
    ensures
        forall|j: int|
            0 <= j < rule.components_from(components, from).len() ==> rule.takes_component(
                (#[trigger] rule.components_from(components, from)[j]).name,
            ) && exists|k: int|
                from <= k < components.len() && components[k] == rule.components_from(
                    components,
                    from,
                )[j],
        distinct_types(components) ==> distinct_types(rule.components_from(components, from)),
    decreases components.len() - from,
{
    if from < components.len() {
        let out = rule.components_from(components, from);
        let rest = rule.components_from(components, from + 1);
        lemma_captured_components(rule, components, from + 1);
        let taken = rule.takes_component(components[from].name);
        let shift: int = if taken {
            1
        } else {
            0
        };
        assert forall|j: int| 0 <= j < out.len() implies rule.takes_component(
            (#[trigger] out[j]).name,
        ) && exists|k: int| from <= k < components.len() && components[k] == out[j] by {
            if taken && j == 0 {
                assert(out[j] == components[from]);
            } else {
                assert(out[j] == rest[j - shift]);
                let k = choose|k: int|
                    from + 1 <= k < components.len() && components[k] == rest[j - shift];
                assert(components[k] == out[j]);
            }
        }
        if distinct_types(components) {
            assert forall|i: int, j: int| 0 <= i < j < out.len() implies (#[trigger] out[i]).name != (
            #[trigger] out[j]).name by {
                assert(out[j] == rest[j - shift]);
                let kj = choose|k: int|
                    from + 1 <= k < components.len() && components[k] == rest[j - shift];
                if taken && i == 0 {
                    assert(out[i] == components[from]);
                    assert(components[from].name != components[kj].name);
                } else {
                    assert(out[i] == rest[i - shift]);
                    assert(rest[i - shift].name != rest[j - shift].name);
                }
            }
        }
    }
}

/// What a capture takes of resources: values that the rule takes, each the
/// resource of a saveable type, and of distinct types where no saveable
/// type is listed twice.
pub proof fn lemma_captured_resources(rule: CaptureRule, resources: Seq<ValueView>, from: int)
    requires
        0 <= from,
    ensures
        forall|j: int|
            0 <= j < rule.resources_from(resources, from).len() ==> rule.takes_resource(
                (#[trigger] rule.resources_from(resources, from)[j]).name,
            ) && resources.contains(rule.resources_from(resources, from)[j]) && exists|k: int|
                from <= k < rule.saveables.len() && rule.saveables[k].name == rule.resources_from(
                    resources,
                    from,
                )[j].name,
        distinct_saveables(rule.saveables) ==> distinct_types(rule.resources_from(resources, from)),
    decreases rule.saveables.len() - from,
{
    if from < rule.saveables.len() {
        let out = rule.resources_from(resources, from);
        let rest = rule.resources_from(resources, from + 1);
        lemma_captured_resources(rule, resources, from + 1);
        let name = rule.saveables[from].name;
        lemma_find_type(resources, name);
        let taken = find_type(resources, name) is Some && rule.takes_resource(name);
        let shift: int = if taken {
            1
        } else {
            0
        };
        assert forall|j: int| 0 <= j < out.len() implies rule.takes_resource(
            (#[trigger] out[j]).name,
        ) && resources.contains(out[j]) && exists|k: int|
            from <= k < rule.saveables.len() && rule.saveables[k].name == out[j].name by {
            if taken && j == 0 {
                let i = find_type(resources, name)->0;
                assert(out[j] == resources[i]);
                assert(rule.saveables[from].name == out[j].name);
            } else {
                assert(out[j] == rest[j - shift]);
                let k = choose|k: int|
                    from + 1 <= k < rule.saveables.len() && rule.saveables[k].name == rest[j
                        - shift].name;
                assert(rule.saveables[k].name == out[j].name);
            }
        }
        if distinct_saveables(rule.saveables) {
            assert forall|i: int, j: int| 0 <= i < j < out.len() implies (#[trigger] out[i]).name != (
            #[trigger] out[j]).name by {
                assert(out[j] == rest[j - shift]);
                let kj = choose|k: int|
                    from + 1 <= k < rule.saveables.len() && rule.saveables[k].name == rest[j
                        - shift].name;
                if taken && i == 0 {
                    let r = find_type(resources, name)->0;
                    assert(out[i] == resources[r]);
                    assert(rule.saveables[from].name != rule.saveables[kj].name);
                } else {
                    assert(out[i] == rest[i - shift]);
                    assert(rest[i - shift].name != rest[j - shift].name);
                }
            }
        }
    }
}

/// Writing a value puts it among the values and leaves every value of
/// another type in its place.
pub proof fn lemma_put_value_keeps(values: Seq<ValueView>, value: ValueView)
    requires
        distinct_types(values),
    ensures
        distinct_types(put_value(values, value)),
        put_value(values, value).contains(value),
        put_value(values, value).len() >= values.len(),
        forall|i: int|
            0 <= i < values.len() && (#[trigger] values[i]).name != value.name ==> put_value(
                values,
                value,
            )[i] == values[i],
{
    lemma_put_value(values, value);
    lemma_find_type(values, value.name);
    let out = put_value(values, value);
    match find_type(values, value.name) {
        Some(k) => {
            assert(out[k] == value);
        },
        None => {
            assert(out[values.len() as int] == value);
        },
    }
}

/// Writing values from the index `from` on leaves in its place a value
/// whose type none of them has.
pub proof fn lemma_overlay_keeps(
    components: Seq<ValueView>,
    values: Seq<ValueView>,
    from: int,
    index: int,
)
    requires
        distinct_types(components),
        0 <= from,
        0 <= index < components.len(),
        forall|j: int| from <= j < values.len() ==> (#[trigger] values[j]).name != components[index].name,
    ensures
        index < overlay_from(components, values, from).len(),
        overlay_from(components, values, from)[index] == components[index],
    decreases values.len() - from,
{
    if from < values.len() {
        lemma_put_value_keeps(components, values[from]);
        assert(values[from].name != components[index].name);
        lemma_overlay_keeps(put_value(components, values[from]), values, from + 1, index);
    }
}

/// After values of distinct types were written over components of distinct
/// types, the components hold every one of them, and their types are
/// distinct still.
pub proof fn lemma_overlay_holds(components: Seq<ValueView>, values: Seq<ValueView>, from: int)
    requires
        distinct_types(components),
        distinct_types(values),
        0 <= from,
    ensures
        distinct_types(overlay_from(components, values, from)),
        holds_all_from(overlay_from(components, values, from), values, from),
    decreases values.len() - from,
{
    if from < values.len() {
        let value = values[from];
        let put = put_value(components, value);
        lemma_put_value_keeps(components, value);
        lemma_overlay_holds(put, values, from + 1);
        let out = overlay_from(components, values, from);
        let k = choose|k: int| 0 <= k < put.len() && put[k] == value;
        assert forall|j: int| from + 1 <= j < values.len() implies (#[trigger] values[j]).name
            != put[k].name by {
            assert(values[from].name != values[j].name);
        }
        lemma_overlay_keeps(put, values, from + 1, k);
        assert(out[k] == value);
        assert forall|j: int| from <= j < values.len() implies out.contains(
            #[trigger] values[j],
        ) by {
            if j == from {
                assert(out[k] == values[j]);
            }
        }
    }
}

/// Writing values over components that hold them already changes nothing.
pub proof fn lemma_overlay_absorbed(components: Seq<ValueView>, values: Seq<ValueView>, from: int)
    requires
        distinct_types(components),
        holds_all_from(components, values, from),
        0 <= from,
    ensures
        overlay_from(components, values, from) == components,
    decreases values.len() - from,
{
    if from < values.len() {
        let value = values[from];
        assert(components.contains(values[from]));
        let m = choose|m: int| 0 <= m < components.len() && components[m] == value;
        lemma_find_type_from(components, value.name, 0);
        let k = find_type(components, value.name)->0;
        if k < m {
            assert(components[k].name != components[m].name);
        }
        assert(put_value(components, value) =~= components);
        lemma_overlay_absorbed(components, values, from + 1);
    }
}

/// Resources of registered types, applied under an empty entity map where
/// every registered type is inert, go through and are written over the
/// resources of the scene; nothing else changes.
pub proof fn lemma_apply_resources_overlay(
    scene: SceneView,
    registry: Seq<TypeRegistration>,
    values: Seq<ValueView>,
    from: int,
)
    requires
        0 <= from,
        all_resources(registry, values),
        all_inert(registry),
    ensures
        apply_resources_from(scene, registry, values, no_entries(), from)
            == Outcome::done(
            (SceneView { resources: overlay_from(scene.resources, values, from), ..scene }),
        ),
    decreases values.len() - from,
{
    if from < values.len() {
        let value = values[from];
        assert(lookup(registry, values[from].name) is Some);
        let reg = lookup(registry, value.name)->0;
        lemma_lookup(registry, value.name);
        let k = choose|k: int| 0 <= k < registry.len() && registry[k] == reg;
        assert(inert(registry[k]));
        let inserted = scene.insert_resource(value);
        lemma_map_entities_inert(inserted, reg);
        lemma_apply_resources_overlay(inserted, registry, values, from + 1);
    }
}

/// Entities with distinct identities that all go to the live entities of
/// their own identities go through, spawn nothing, and leave every one of
/// these entities holding the components of its record.
pub proof fn lemma_apply_entities_settle(
    scene: SceneView,
    registry: Seq<TypeRegistration>,
    records: Seq<EntityView>,
    fallback: Map<u32, u32>,
    from: int,
)
    requires
        scene.wf(),
        0 <= from <= records.len(),
        all_records_apply(registry, records),
        distinct_entities(records),
        all_reused(scene, records, fallback),
        forall|i: int| 0 <= i < from ==> settled(scene, #[trigger] records[i]),
    ensures
        ({
            let out = apply_entities_from(
                scene,
                registry,
                records,
                no_entries(),
                fallback,
                from,
            );
            &&& out.error is None
            &&& out.scene.wf()
            &&& out.scene.resources == scene.resources
            &&& out.scene.next == scene.next
            &&& out.scene.identities() == scene.identities()
            &&& forall|i: int| 0 <= i < records.len() ==> settled(out.scene, #[trigger] records[i])
        }),
    decreases records.len() - from,
{
    let none = no_entries();
    if from < records.len() {
        let record = records[from];
        lemma_find_entity(scene.entities, record.entity);
        let index = find_entity(scene.entities, record.entity)->0;
        assert(all_components_from(registry, records[from].components, 0));
        lemma_apply_components_overlay(scene, registry, index, record.components, 0);
        let components = overlay_from(scene.entities[index].components, record.components, 0);
        let made = with_components(scene, index, components);
        assert(apply_entity(scene, registry, record, none, fallback) == Outcome::done(made));
        lemma_apply_components(scene, registry, record.entity, record.components, 0);
        assert(distinct_types(scene.entities[index].components));
        lemma_overlay_holds(scene.entities[index].components, record.components, 0);
        assert(made.identities() == scene.identities());
        assert forall|k: int| 0 <= k < made.entities.len() implies (#[trigger] made.entities[k]).entity
            == scene.entities[k].entity by {
            assert(made.identities()[k] == scene.identities()[k]);
        }
        assert forall|x: u32| find_entity(made.entities, x) == find_entity(scene.entities, x) by {
            lemma_find_entity_same(scene.entities, made.entities, x, 0);
        }
        assert(all_reused(made, records, fallback)) by {
            assert forall|i: int| 0 <= i < records.len() implies is_live(
                made.entities,
                (#[trigger] records[i]).entity,
            ) by {
                lemma_find_entity(scene.entities, records[i].entity);
                lemma_find_entity(made.entities, records[i].entity);
            }
        }
        assert forall|i: int| 0 <= i < from + 1 implies settled(made, #[trigger] records[i]) by {
            if i < from {
                lemma_find_entity(scene.entities, records[i].entity);
                let t = find_entity(scene.entities, records[i].entity)->0;
                assert(records[i].entity != records[from].entity);
                assert(t != index);
                assert(made.entities[t] == scene.entities[t]);
            }
        }
        lemma_apply_entities_settle(made, registry, records, fallback, from + 1);
    }
}

/// Where two lists of entities have the same identities in the same
/// places, an identity is found in both at the same index.
pub proof fn lemma_find_entity_same(
    first: Seq<EntityView>,
    second: Seq<EntityView>,
    entity: u32,
    from: int,
)
    requires
        first.len() == second.len(),
        forall|k: int| 0 <= k < first.len() ==> (#[trigger] second[k]).entity == first[k].entity,
        0 <= from,
    ensures
        find_entity_from(second, entity, from) == find_entity_from(first, entity, from),
    decreases first.len() - from,
{
    if from < first.len() {
        assert(second[from].entity == first[from].entity);
        lemma_find_entity_same(first, second, entity, from + 1);
    }
}

/// Entities that all go to live entities of their own identities, which
/// hold the components of their records already, go through and change
/// nothing.
pub proof fn lemma_apply_entities_settled(
    scene: SceneView,
    registry: Seq<TypeRegistration>,
    records: Seq<EntityView>,
    fallback: Map<u32, u32>,
    from: int,
)
    requires
        scene.wf(),
        0 <= from <= records.len(),
        all_records_apply(registry, records),
        all_reused(scene, records, fallback),
        forall|i: int| 0 <= i < records.len() ==> settled(scene, #[trigger] records[i]),
    ensures
        apply_entities_from(scene, registry, records, no_entries(), fallback, from)
            == Outcome::done(scene),
    decreases records.len() - from,
{
    let none = no_entries();
    if from < records.len() {
        let record = records[from];
        assert(settled(scene, records[from]));
        lemma_find_entity(scene.entities, record.entity);
        let index = find_entity(scene.entities, record.entity)->0;
        assert(all_components_from(registry, records[from].components, 0));
        lemma_apply_components_overlay(scene, registry, index, record.components, 0);
        assert(distinct_types(scene.entities[index].components));
        lemma_overlay_absorbed(scene.entities[index].components, record.components, 0);
        assert(with_components(scene, index, scene.entities[index].components).entities
            =~= scene.entities);
        assert(apply_entity(scene, registry, record, none, fallback) == Outcome::done(scene));
        lemma_apply_entities_settled(scene, registry, records, fallback, from + 1);
    }
}

} // verus!
