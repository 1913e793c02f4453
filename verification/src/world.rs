//! The live world: entities with their components, and resources.

use crate::entity::{
    clone_entities, clone_values, entries, EntityView, MapEntitiesError, SaveableEntity,
};
use bevy::ecs::entity::EntityMap;
use crate::registry::{SaveableRegistry, TypeRegistration, TypeRegistry};
use crate::rollbacks::Rollbacks;
use crate::value::{
    distinct_types, find_type, lemma_find_type, lemma_put_value, position_of_type, put,
    put_value, TypedValue, ValueView,
};
use std::collections::HashSet;
use vstd::prelude::*;
use vstd::set_lib::{lemma_int_range, lemma_len_subset, set_int_range};
use vstd::std_specs::hash::*;

verus! {

broadcast use vstd::std_specs::hash::group_hash_axioms;

/// The number of identities: an identity is a `u32`.
pub const IDENTITIES: u64 = 0x1_0000_0000;

/// The first index at or after `from` of the entity with the identity `entity`.
pub open spec fn find_entity_from(entities: Seq<EntityView>, entity: u32, from: int) -> Option<int>
    decreases entities.len() - from,
{
    if from < 0 || from >= entities.len() {
        None
    } else if entities[from].entity == entity {
        Some(from)
    } else {
        find_entity_from(entities, entity, from + 1)
    }
}

/// The index of the entity with the identity `entity`.
pub open spec fn find_entity(entities: Seq<EntityView>, entity: u32) -> Option<int> {
    find_entity_from(entities, entity, 0)
}

/// Whether an entity with the identity `entity` is among `entities`.
pub open spec fn is_live(entities: Seq<EntityView>, entity: u32) -> bool {
    exists|i: int| 0 <= i < entities.len() && (#[trigger] entities[i]).entity == entity
}

/// No two entities have the same identity.
pub open spec fn distinct_entities(entities: Seq<EntityView>) -> bool {
    forall|i: int, j: int|
        0 <= i < j < entities.len() ==> (#[trigger] entities[i]).entity != (
        #[trigger] entities[j]).entity
}

/// The entities of `entities` whose identity is not in `dead`, in their order.
pub open spec fn without(entities: Seq<EntityView>, dead: Set<u32>) -> Seq<EntityView>
    decreases entities.len(),
{
    if entities.len() == 0 {
        entities
    } else if dead.contains(entities.last().entity) {
        without(entities.drop_last(), dead)
    } else {
        without(entities.drop_last(), dead).push(entities.last())
    }
}

/// What `find_entity_from` returns: the first match at or after `from`, if any.
pub proof fn lemma_find_entity_from(entities: Seq<EntityView>, entity: u32, from: int)
    requires
        0 <= from,
    ensures
        match find_entity_from(entities, entity, from) {
            Some(i) => from <= i < entities.len() && entities[i].entity == entity && forall|
                j: int,
            |
                from <= j < i ==> (#[trigger] entities[j]).entity != entity,
            None => forall|j: int|
                from <= j < entities.len() ==> (#[trigger] entities[j]).entity != entity,
        },
    decreases entities.len() - from,
{
    if from < entities.len() && entities[from].entity != entity {
        lemma_find_entity_from(entities, entity, from + 1);
    }
}

/// `find_entity` finds an identity exactly when it is live, and then at the
/// index of its entity.
pub proof fn lemma_find_entity(entities: Seq<EntityView>, entity: u32)
    ensures
        find_entity(entities, entity) is Some <==> is_live(entities, entity),
        find_entity(entities, entity) matches Some(i) ==> 0 <= i < entities.len()
            && entities[i].entity == entity,
{
    lemma_find_entity_from(entities, entity, 0);
}

/// Where identities are distinct, an entity is found at its own index.
pub proof fn lemma_find_entity_at(entities: Seq<EntityView>, index: int)
    requires
        distinct_entities(entities),
        0 <= index < entities.len(),
    ensures
        find_entity(entities, entities[index].entity) == Some(index),
{
    lemma_find_entity_from(entities, entities[index].entity, 0);
}

/// What `without` keeps: the entities that are not dead, and nothing else,
/// no more of them than there were.
pub proof fn lemma_without(entities: Seq<EntityView>, dead: Set<u32>)
    ensures
        without(entities, dead).len() <= entities.len(),
        forall|i: int|
            0 <= i < without(entities, dead).len() ==> !dead.contains(
                (#[trigger] without(entities, dead)[i]).entity,
            ) && entities.contains(without(entities, dead)[i]),
        forall|i: int|
            0 <= i < entities.len() && !dead.contains((#[trigger] entities[i]).entity)
                ==> without(entities, dead).contains(entities[i]),
        distinct_entities(entities) ==> distinct_entities(without(entities, dead)),
    decreases entities.len(),
{
    if entities.len() > 0 {
        let front = entities.drop_last();
        let last = entities.last();
        let kept = without(front, dead);
        lemma_without(front, dead);
        let out = without(entities, dead);
        assert forall|i: int| 0 <= i < out.len() implies !dead.contains(
            (#[trigger] out[i]).entity,
        ) && entities.contains(out[i]) by {
            if i < kept.len() {
                assert(out[i] == kept[i]);
                assert(front.contains(kept[i]));
                let k = choose|k: int| 0 <= k < front.len() && front[k] == kept[i];
                assert(entities[k] == kept[i]);
            } else {
                assert(out[i] == last);
                assert(entities[entities.len() - 1] == last);
            }
        }
        assert forall|i: int|
            0 <= i < entities.len() && !dead.contains(
                (#[trigger] entities[i]).entity,
            ) implies out.contains(entities[i]) by {
            if i < front.len() {
                assert(front[i] == entities[i]);
                assert(kept.contains(front[i]));
                let k = choose|k: int| 0 <= k < kept.len() && kept[k] == front[i];
                assert(out[k] == entities[i]);
            } else {
                assert(out[out.len() - 1] == entities[i]);
            }
        }
        if distinct_entities(entities) {
            assert(distinct_entities(front)) by {
                assert forall|i: int, j: int| 0 <= i < j < front.len() implies (
                #[trigger] front[i]).entity != (#[trigger] front[j]).entity by {
                    assert(front[i] == entities[i] && front[j] == entities[j]);
                }
            }
            assert forall|i: int, j: int| 0 <= i < j < out.len() implies (
            #[trigger] out[i]).entity != (#[trigger] out[j]).entity by {
                if j < kept.len() {
                    assert(out[i] == kept[i] && out[j] == kept[j]);
                } else {
                    assert(out[j] == last);
                    assert(out[i] == kept[i]);
                    assert(front.contains(kept[i]));
                    let k = choose|k: int| 0 <= k < front.len() && front[k] == kept[i];
                    assert(entities[k] == kept[i]);
                    assert(entities[entities.len() - 1] == last);
                }
            }
        }
    }
}

/// The values after the entity references of the value of `reg`'s type were
/// rewritten under `entity_map`, and the error where that failed. Nothing
/// changes where the type has no such capability or no value of it is there.
pub open spec fn rewrite_value(
    values: Seq<ValueView>,
    reg: TypeRegistration,
    entity_map: Map<u32, u32>,
) -> (Seq<ValueView>, Option<MapEntitiesError>) {
    match (reg.map_entities, find_type(values, reg.name@)) {
        (Some(mapper), Some(i)) => match mapper.mapped(values[i].data, entity_map) {
            Ok(data) => (values.update(i, ValueView { name: values[i].name, data }), None),
            Err(e) => (values, Some(e)),
        },
        _ => (values, None),
    }
}

/// Rewriting changes no type and no length.
pub proof fn lemma_rewrite_value(
    values: Seq<ValueView>,
    reg: TypeRegistration,
    entity_map: Map<u32, u32>,
)
    ensures
        rewrite_value(values, reg, entity_map).0.len() == values.len(),
        forall|i: int|
            0 <= i < values.len() ==> (#[trigger] rewrite_value(values, reg, entity_map).0[i]).name
                == values[i].name,
        distinct_types(values) ==> distinct_types(rewrite_value(values, reg, entity_map).0),
        reg.map_entities is None ==> rewrite_value(values, reg, entity_map) == (
            values,
            None::<MapEntitiesError>,
        ),
{
    lemma_find_type(values, reg.name@);
}

/// The mathematical content of a [`Scene`].
pub struct SceneView {
    /// The resources, in the order in which their types were first inserted.
    pub resources: Seq<ValueView>,
    /// The live entities, in the order in which they were spawned.
    pub entities: Seq<EntityView>,
    /// The identity that the next spawned entity gets.
    pub next: nat,
}

impl SceneView {
    /// The invariant of a scene: no type twice among the resources or among
    /// the components of one entity, no identity twice, and every identity
    /// below the next one to be handed out.
    pub open spec fn wf(self) -> bool {
        &&& distinct_types(self.resources)
        &&& distinct_entities(self.entities)
        &&& forall|i: int|
            0 <= i < self.entities.len() ==> distinct_types(
                (#[trigger] self.entities[i]).components,
            )
        &&& forall|i: int|
            0 <= i < self.entities.len() ==> (#[trigger] self.entities[i]).entity < self.next
        &&& self.next <= IDENTITIES
    }

    /// The scene after a new entity without components was spawned.
    pub open spec fn spawn_empty(self) -> SceneView {
        SceneView {
            entities: self.entities.push(
                EntityView { entity: self.next as u32, components: Seq::empty() },
            ),
            next: self.next + 1,
            ..self
        }
    }

    /// The scene with an entity of the identity `entity`: unchanged where one
    /// is live, else with a new one without components.
    pub open spec fn get_or_spawn(self, entity: u32) -> SceneView {
        if is_live(self.entities, entity) {
            self
        } else {
            SceneView {
                entities: self.entities.push(EntityView { entity, components: Seq::empty() }),
                next: if self.next > entity {
                    self.next
                } else {
                    (entity + 1) as nat
                },
                ..self
            }
        }
    }

    /// The scene without the entities whose identity is in `dead`.
    pub open spec fn despawn_all(self, dead: Set<u32>) -> SceneView {
        SceneView { entities: without(self.entities, dead), ..self }
    }

    /// The scene without the entity of the identity `entity`.
    pub open spec fn despawn(self, entity: u32) -> SceneView {
        self.despawn_all(set![entity])
    }

    /// The scene with `value` as a component of the entity `entity`, in place
    /// of the component of the same type where the entity has one. Unchanged
    /// where no such entity is live.
    pub open spec fn insert_component(self, entity: u32, value: ValueView) -> SceneView {
        match find_entity(self.entities, entity) {
            Some(i) => SceneView {
                entities: self.entities.update(
                    i,
                    EntityView {
                        entity,
                        components: put_value(self.entities[i].components, value),
                    },
                ),
                ..self
            },
            None => self,
        }
    }

    /// The scene with `value` as a resource, in place of the resource of the
    /// same type where there is one.
    pub open spec fn insert_resource(self, value: ValueView) -> SceneView {
        SceneView { resources: put_value(self.resources, value), ..self }
    }

    /// The scene after the entity references in the components of the type of
    /// `reg` were rewritten, from the entity at `from` on, up to the first
    /// failure, and that failure.
    pub open spec fn map_entities_from(
        self,
        reg: TypeRegistration,
        entity_map: Map<u32, u32>,
        from: int,
    ) -> (SceneView, Option<MapEntitiesError>)
        decreases self.entities.len() - from,
    {
        if from < 0 || from >= self.entities.len() {
            (self, None)
        } else {
            let (components, err) = rewrite_value(self.entities[from].components, reg, entity_map);
            match err {
                Some(e) => (self, Some(e)),
                None => (SceneView {
                    entities: self.entities.update(
                        from,
                        EntityView { entity: self.entities[from].entity, components },
                    ),
                    ..self
                }).map_entities_from(reg, entity_map, from + 1),
            }
        }
    }

    /// The scene after the entity references in every value of the type of
    /// `reg` were rewritten under `entity_map`: in the resource of that type,
    /// then in the component of that type of each entity in turn. The first
    /// failure ends it and comes back with what was rewritten until then.
    pub open spec fn map_entities(self, reg: TypeRegistration, entity_map: Map<u32, u32>) -> (
        SceneView,
        Option<MapEntitiesError>,
    ) {
        let (resources, err) = rewrite_value(self.resources, reg, entity_map);
        match err {
            Some(e) => (self, Some(e)),
            None => (SceneView { resources, ..self }).map_entities_from(reg, entity_map, 0),
        }
    }

    /// The identities of the entities, in their order.
    pub open spec fn identities(self) -> Seq<u32> {
        self.entities.map_values(|e: EntityView| e.entity)
    }
}

/// Rewriting entity references keeps the invariant, the identities and the
/// next identity.
pub proof fn lemma_map_entities_from(
    scene: SceneView,
    reg: TypeRegistration,
    entity_map: Map<u32, u32>,
    from: int,
)
    requires
        scene.wf(),
        0 <= from,
    ensures
        scene.map_entities_from(reg, entity_map, from).0.wf(),
        scene.map_entities_from(reg, entity_map, from).0.identities() == scene.identities(),
        scene.map_entities_from(reg, entity_map, from).0.next == scene.next,
        scene.map_entities_from(reg, entity_map, from).0.resources == scene.resources,
        reg.map_entities is None ==> scene.map_entities_from(reg, entity_map, from) == (
            scene,
            None::<MapEntitiesError>,
        ),
    decreases scene.entities.len() - from,
{
    if from < scene.entities.len() {
        let (components, err) = rewrite_value(scene.entities[from].components, reg, entity_map);
        lemma_rewrite_value(scene.entities[from].components, reg, entity_map);
        if err is None {
            let next = SceneView {
                entities: scene.entities.update(
                    from,
                    EntityView { entity: scene.entities[from].entity, components },
                ),
                ..scene
            };
            assert(next.identities() =~= scene.identities());
            assert(next.wf()) by {
                assert forall|i: int| 0 <= i < next.entities.len() implies distinct_types(
                    (#[trigger] next.entities[i]).components,
                ) && next.entities[i].entity < next.next by {
                    assert(scene.entities[i].entity < scene.next);
                    assert(distinct_types(scene.entities[i].components));
                }
                assert forall|i: int, j: int| 0 <= i < j < next.entities.len() implies (
                #[trigger] next.entities[i]).entity != (#[trigger] next.entities[j]).entity by {
                    assert(scene.entities[i].entity != scene.entities[j].entity);
                }
            }
            lemma_map_entities_from(next, reg, entity_map, from + 1);
            if reg.map_entities is None {
                assert(next.entities =~= scene.entities);
            }
        }
    }
}

/// Rewriting entity references keeps the invariant, the identities and the
/// next identity, and changes nothing where the type has no such capability.
pub proof fn lemma_map_entities(scene: SceneView, reg: TypeRegistration, entity_map: Map<u32, u32>)
    requires
        scene.wf(),
    ensures
        scene.map_entities(reg, entity_map).0.wf(),
        scene.map_entities(reg, entity_map).0.identities() == scene.identities(),
        scene.map_entities(reg, entity_map).0.next == scene.next,
        scene.map_entities(reg, entity_map).0.resources.len() == scene.resources.len(),
        reg.map_entities is None ==> scene.map_entities(reg, entity_map) == (
            scene,
            None::<MapEntitiesError>,
        ),
{
    let (resources, err) = rewrite_value(scene.resources, reg, entity_map);
    lemma_rewrite_value(scene.resources, reg, entity_map);
    if err is None {
        lemma_map_entities_from(SceneView { resources, ..scene }, reg, entity_map, 0);
    }
}

/// Rewrites the entity references of the value of the type of `reg` among
/// `values`, or leaves `values` as they are and returns the error.
pub fn rewrite(
    values: &mut Vec<TypedValue>,
    reg: &TypeRegistration,
    entity_map: &EntityMap,
) -> (res: Result<(), MapEntitiesError>)
    ensures
        final(values).deep_view() == rewrite_value(
            old(values).deep_view(),
            *reg,
            entries(*entity_map),
        ).0,
        match res {
            Ok(_) => rewrite_value(old(values).deep_view(), *reg, entries(*entity_map)).1
                is None,
            Err(e) => rewrite_value(old(values).deep_view(), *reg, entries(*entity_map)).1
                == Some(e),
        },
{
    let ghost before = values.deep_view();
    proof {
        lemma_find_type(before, reg.name@);
    }
    match &reg.map_entities {
        None => Ok(()),
        Some(mapper) => match position_of_type(values, &reg.name) {
            None => Ok(()),
            Some(i) => match mapper.map_entities(&values[i].data, entity_map) {
                Ok(data) => {
                    values[i].data = data;
                    assert(values.deep_view() =~= before.update(
                        i as int,
                        ValueView { name: before[i as int].name, data: data@ },
                    ));
                    Ok(())
                },
                Err(e) => Err(e),
            },
        },
    }
}

/// An identity is live after a despawn exactly if it was live and is not
/// among the dead.
pub proof fn lemma_without_live(entities: Seq<EntityView>, dead: Set<u32>, entity: u32)
    ensures
        is_live(without(entities, dead), entity) <==> is_live(entities, entity) && !dead.contains(
            entity,
        ),
{
    let kept = without(entities, dead);
    lemma_without(entities, dead);
    if is_live(kept, entity) {
        let k = choose|k: int| 0 <= k < kept.len() && (#[trigger] kept[k]).entity == entity;
        assert(entities.contains(kept[k]));
        let j = choose|j: int| 0 <= j < entities.len() && entities[j] == kept[k];
        assert(entities[j].entity == entity);
    }
    if is_live(entities, entity) && !dead.contains(entity) {
        let j = choose|j: int| 0 <= j < entities.len() && (#[trigger] entities[j]).entity == entity;
        assert(kept.contains(entities[j]));
        let k = choose|k: int| 0 <= k < kept.len() && kept[k] == entities[j];
        assert(kept[k].entity == entity);
    }
}

/// Where no entity is dead, `without` keeps them all.
pub proof fn lemma_without_none(entities: Seq<EntityView>, dead: Set<u32>)
    requires
        forall|i: int| 0 <= i < entities.len() ==> !dead.contains((#[trigger] entities[i]).entity),
    ensures
        without(entities, dead) == entities,
    decreases entities.len(),
{
    if entities.len() > 0 {
        let front = entities.drop_last();
        assert forall|i: int| 0 <= i < front.len() implies !dead.contains(
            (#[trigger] front[i]).entity,
        ) by {
            assert(front[i] == entities[i]);
        }
        lemma_without_none(front, dead);
        assert(entities[entities.len() - 1] == entities.last());
        assert(front.push(entities.last()) =~= entities);
    }
}

/// Where identities are distinct, `without` one identity removes the entity
/// at the index where that identity is.
pub proof fn lemma_without_one(entities: Seq<EntityView>, entity: u32, index: int)
    requires
        distinct_entities(entities),
        0 <= index < entities.len(),
        entities[index].entity == entity,
    ensures
        without(entities, set![entity]) == entities.remove(index),
    decreases entities.len(),
{
    let dead = set![entity];
    let front = entities.drop_last();
    assert(distinct_entities(front)) by {
        assert forall|i: int, j: int| 0 <= i < j < front.len() implies (#[trigger] front[i]).entity
            != (#[trigger] front[j]).entity by {
            assert(front[i] == entities[i] && front[j] == entities[j]);
        }
    }
    if index == entities.len() - 1 {
        assert forall|i: int| 0 <= i < front.len() implies !dead.contains(
            (#[trigger] front[i]).entity,
        ) by {
            assert(front[i] == entities[i]);
            assert(entities[i].entity != entities[index].entity);
        }
        lemma_without_none(front, dead);
        assert(entities.remove(index) =~= front);
    } else {
        assert(front[index] == entities[index]);
        lemma_without_one(front, entity, index);
        assert(entities[index].entity != entities[entities.len() - 1].entity);
        assert(front.remove(index).push(entities.last()) =~= entities.remove(index));
    }
}

/// Despawning keeps the invariant.
pub proof fn lemma_despawn_all(scene: SceneView, dead: Set<u32>)
    requires
        scene.wf(),
    ensures
        scene.despawn_all(dead).wf(),
{
    let out = scene.despawn_all(dead);
    lemma_without(scene.entities, dead);
    assert forall|i: int| 0 <= i < out.entities.len() implies distinct_types(
        (#[trigger] out.entities[i]).components,
    ) && out.entities[i].entity < out.next by {
        assert(scene.entities.contains(out.entities[i]));
        let k = choose|k: int| 0 <= k < scene.entities.len() && scene.entities[k] == out.entities[i];
        assert(distinct_types(scene.entities[k].components));
        assert(scene.entities[k].entity < scene.next);
    }
}

/// Inserting a component keeps the invariant and the identities.
pub proof fn lemma_insert_component(scene: SceneView, entity: u32, value: ValueView)
    requires
        scene.wf(),
    ensures
        scene.insert_component(entity, value).wf(),
        scene.insert_component(entity, value).identities() == scene.identities(),
{
    let out = scene.insert_component(entity, value);
    lemma_find_entity(scene.entities, entity);
    match find_entity(scene.entities, entity) {
        Some(i) => {
            lemma_put_value(scene.entities[i].components, value);
            assert forall|k: int| 0 <= k < out.entities.len() implies distinct_types(
                (#[trigger] out.entities[k]).components,
            ) && out.entities[k].entity < out.next by {
                assert(distinct_types(scene.entities[k].components));
                assert(scene.entities[k].entity < scene.next);
            }
            assert forall|k: int, j: int| 0 <= k < j < out.entities.len() implies (
            #[trigger] out.entities[k]).entity != (#[trigger] out.entities[j]).entity by {
                assert(scene.entities[k].entity != scene.entities[j].entity);
            }
            assert(out.identities() =~= scene.identities());
        },
        None => {},
    }
}

/// A scene has no more entities than identities were handed out.
pub proof fn lemma_entity_count(scene: SceneView)
    requires
        scene.wf(),
    ensures
        scene.entities.len() <= scene.next,
{
    let ids = Seq::new(scene.entities.len(), |i: int| scene.entities[i].entity as int);
    assert(ids.no_duplicates()) by {
        assert forall|i: int, j: int| 0 <= i < ids.len() && 0 <= j < ids.len() && i != j implies ids[i]
            != ids[j] by {
            if i < j {
                assert(scene.entities[i].entity != scene.entities[j].entity);
            } else {
                assert(scene.entities[j].entity != scene.entities[i].entity);
            }
        }
    }
    ids.unique_seq_to_set();
    let range = set_int_range(0, scene.next as int);
    lemma_int_range(0, scene.next as int);
    assert(ids.to_set().subset_of(range)) by {
        assert forall|x: int| ids.to_set().contains(x) implies range.contains(x) by {
            let i = choose|i: int| 0 <= i < ids.len() && ids[i] == x;
            assert(scene.entities[i].entity < scene.next);
        }
    }
    lemma_len_subset(ids.to_set(), range);
}

/// The entities and resources of a world.
pub struct Scene {
    resources: Vec<TypedValue>,
    entities: Vec<SaveableEntity>,
    next: u64,
}

impl View for Scene {
    type V = SceneView;

    closed spec fn view(&self) -> SceneView {
        SceneView {
            resources: self.resources.deep_view(),
            entities: self.entities.deep_view(),
            next: self.next as nat,
        }
    }
}

impl Scene {
    /// The invariant that every scene keeps.
    #[verifier::type_invariant]
    pub open spec fn inv(&self) -> bool {
        self@.wf()
    }

    /// The scene without entities and resources.
    pub fn new() -> (scene: Scene)
        ensures
            scene@ == (SceneView { resources: Seq::empty(), entities: Seq::empty(), next: 0 }),
    {
        let scene = Scene { resources: Vec::new(), entities: Vec::new(), next: 0 };
        assert(scene.resources.deep_view() =~= Seq::empty());
        assert(scene.entities.deep_view() =~= Seq::empty());
        scene
    }

    /// The live entities, in the order in which they were spawned. The scene
    /// keeps its invariant at all times.
    pub fn entities(&self) -> (entities: &Vec<SaveableEntity>)
        ensures
            entities.deep_view() == self@.entities,
            self@.wf(),
    {
        proof {
            use_type_invariant(self);
        }
        &self.entities
    }

    /// The resources, in the order in which their types were first inserted.
    pub fn resources(&self) -> (resources: &Vec<TypedValue>)
        ensures
            resources.deep_view() == self@.resources,
            self@.wf(),
    {
        proof {
            use_type_invariant(self);
        }
        &self.resources
    }

    /// A deep copy that shares nothing with `self`.
    pub fn clone_value(&self) -> (copy: Scene)
        ensures
            copy@ == self@,
    {
        proof {
            use_type_invariant(self);
        }
        Scene {
            resources: clone_values(&self.resources),
            entities: clone_entities(&self.entities),
            next: self.next,
        }
    }

    /// How many more entities can be spawned before the identities run out.
    pub fn spare_identities(&self) -> (spare: u64)
        ensures
            spare == IDENTITIES - self@.next,
            self@.wf(),
    {
        proof {
            use_type_invariant(self);
        }
        IDENTITIES - self.next
    }

    fn position(&self, entity: u32) -> (found: Option<usize>)
        ensures
            match found {
                Some(i) => find_entity(self@.entities, entity) == Some(i as int) && i
                    < self.entities.len(),
                None => find_entity(self@.entities, entity) is None,
            },
    {
        let mut i: usize = 0;
        while i < self.entities.len()
            invariant
                i <= self.entities.len(),
                find_entity_from(self@.entities, entity, i as int) == find_entity(
                    self@.entities,
                    entity,
                ),
            decreases self.entities.len() - i,
        {
            if self.entities[i].entity == entity {
                return Some(i);
            }
            i += 1;
        }
        None
    }

    /// Whether an entity with the identity `entity` is live.
    pub fn contains(&self, entity: u32) -> (live: bool)
        ensures
            live == is_live(self@.entities, entity),
    {
        proof {
            lemma_find_entity(self@.entities, entity);
        }
        self.position(entity).is_some()
    }

    /// The entity with the identity `entity`, if it is live.
    pub fn entity(&self, entity: u32) -> (found: Option<&SaveableEntity>)
        ensures
            match found {
                Some(e) => find_entity(self@.entities, entity) is Some && e@
                    == self@.entities[find_entity(self@.entities, entity)->0],
                None => !is_live(self@.entities, entity),
            },
    {
        proof {
            lemma_find_entity(self@.entities, entity);
        }
        match self.position(entity) {
            Some(i) => Some(&self.entities[i]),
            None => None,
        }
    }

    /// The resource of the type `name`, if the scene holds one.
    pub fn resource(&self, name: &String) -> (found: Option<&TypedValue>)
        ensures
            match found {
                Some(v) => find_type(self@.resources, name@) is Some && v@
                    == self@.resources[find_type(self@.resources, name@)->0],
                None => find_type(self@.resources, name@) is None,
            },
    {
        proof {
            lemma_find_type(self@.resources, name@);
        }
        match position_of_type(&self.resources, name) {
            Some(i) => Some(&self.resources[i]),
            None => None,
        }
    }

    /// Spawns an entity without components and returns its identity, which
    /// no entity had before.
    pub fn spawn_empty(&mut self) -> (entity: u32)
        requires
            old(self)@.next < IDENTITIES,
        ensures
            final(self)@ == old(self)@.spawn_empty(),
            entity == old(self)@.next,
            !is_live(old(self)@.entities, entity),
    {
        proof {
            use_type_invariant(&*self);
        }
        let ghost before = self@;
        let entity = self.next as u32;
        let mut entities: Vec<SaveableEntity> = Vec::new();
        core::mem::swap(&mut self.entities, &mut entities);
        assert(self.entities.deep_view() =~= Seq::empty());
        self.next = self.next + 1;
        let fresh = SaveableEntity { entity, components: Vec::new() };
        assert(fresh.components.deep_view() =~= Seq::empty());
        entities.push(fresh);
        assert(entities.deep_view() =~= before.entities.push(
            EntityView { entity, components: Seq::empty() },
        ));
        self.entities = entities;
        entity
    }

    /// Makes sure that an entity with the identity `entity` is live, and
    /// says whether it had to be spawned.
    pub fn get_or_spawn(&mut self, entity: u32) -> (spawned: bool)
        ensures
            final(self)@ == old(self)@.get_or_spawn(entity),
            spawned == !is_live(old(self)@.entities, entity),
    {
        proof {
            use_type_invariant(&*self);
            lemma_find_entity(self@.entities, entity);
        }
        if self.position(entity).is_some() {
            return false;
        }
        let ghost before = self@;
        let mut entities: Vec<SaveableEntity> = Vec::new();
        core::mem::swap(&mut self.entities, &mut entities);
        assert(self.entities.deep_view() =~= Seq::empty());
        if self.next <= entity as u64 {
            self.next = entity as u64 + 1;
        }
        let fresh = SaveableEntity { entity, components: Vec::new() };
        assert(fresh.components.deep_view() =~= Seq::empty());
        entities.push(fresh);
        assert(entities.deep_view() =~= before.entities.push(
            EntityView { entity, components: Seq::empty() },
        ));
        self.entities = entities;
        true
    }

    /// Despawns the entity with the identity `entity` and says whether there
    /// was one.
    pub fn despawn(&mut self, entity: u32) -> (despawned: bool)
        ensures
            final(self)@ == old(self)@.despawn(entity),
            despawned == is_live(old(self)@.entities, entity),
    {
        let ghost before = self@;
        proof {
            use_type_invariant(&*self);
            lemma_find_entity(before.entities, entity);
            lemma_find_entity_from(before.entities, entity, 0);
        }
        match self.position(entity) {
            Some(i) => {
                let mut entities: Vec<SaveableEntity> = Vec::new();
                core::mem::swap(&mut self.entities, &mut entities);
                assert(self.entities.deep_view() =~= Seq::empty());
                let _ = entities.remove(i);
                proof {
                    assert(entities.deep_view() =~= before.entities.remove(i as int));
                    lemma_without_one(before.entities, entity, i as int);
                    lemma_without(before.entities, set![entity]);
                    lemma_despawn_all(before, set![entity]);
                }
                self.entities = entities;
                true
            },
            None => {
                proof {
                    lemma_without_none(before.entities, set![entity]);
                }
                false
            },
        }
    }

    /// Despawns every entity whose identity is in `dead`.
    pub fn despawn_all(&mut self, dead: &HashSet<u32>)
        ensures
            final(self)@ == old(self)@.despawn_all(dead@),
    {
        let ghost before = self@;
        proof {
            use_type_invariant(&*self);
        }
        let mut entities: Vec<SaveableEntity> = Vec::new();
        core::mem::swap(&mut self.entities, &mut entities);
        assert(self.entities.deep_view() =~= Seq::empty());
        // The entities that stay, taken from the back, and so in reverse.
        let mut reversed: Vec<SaveableEntity> = Vec::new();
        assert(without(entities.deep_view(), dead@) + reversed.deep_view().reverse() =~= without(
            before.entities,
            dead@,
        ));
        while entities.len() > 0
            invariant
                without(entities.deep_view(), dead@) + reversed.deep_view().reverse() == without(
                    before.entities,
                    dead@,
                ),
            decreases entities.len(),
        {
            let ghost rest = entities.deep_view();
            let ghost taken = reversed.deep_view();
            let last = entities.pop();
            assert(entities.deep_view() =~= rest.drop_last());
            match last {
                Some(entity) => {
                    assert(entity@ == rest.last());
                    if !dead.contains(&entity.entity) {
                        reversed.push(entity);
                        assert(reversed.deep_view() =~= taken.push(rest.last()));
                        assert(reversed.deep_view().reverse() =~= seq![rest.last()]
                            + taken.reverse());
                        assert(without(rest, dead@) + taken.reverse() =~= without(
                            rest.drop_last(),
                            dead@,
                        ) + (seq![rest.last()] + taken.reverse()));
                    }
                },
                None => {},
            }
        }
        assert(without(entities.deep_view(), dead@) =~= Seq::empty());
        let mut kept: Vec<SaveableEntity> = Vec::new();
        assert(kept.deep_view() + reversed.deep_view().reverse() =~= without(
            before.entities,
            dead@,
        ));
        while reversed.len() > 0
            invariant
                kept.deep_view() + reversed.deep_view().reverse() == without(
                    before.entities,
                    dead@,
                ),
            decreases reversed.len(),
        {
            let ghost rest = reversed.deep_view();
            let ghost placed = kept.deep_view();
            let last = reversed.pop();
            assert(reversed.deep_view() =~= rest.drop_last());
            match last {
                Some(entity) => {
                    kept.push(entity);
                    assert(kept.deep_view() =~= placed.push(rest.last()));
                    assert(rest.reverse() =~= seq![rest.last()] + rest.drop_last().reverse());
                    assert(kept.deep_view() + reversed.deep_view().reverse() =~= placed
                        + rest.reverse());
                },
                None => {},
            }
        }
        proof {
            assert(reversed.deep_view().reverse() =~= Seq::empty());
            assert(kept.deep_view() =~= without(before.entities, dead@));
            lemma_despawn_all(before, dead@);
        }
        self.entities = kept;
    }

    /// Gives the entity `entity` the component `value`, in place of its
    /// component of the same type where it has one, and says whether the
    /// entity is live. Nothing changes where it is not.
    pub fn insert_component(&mut self, entity: u32, value: TypedValue) -> (live: bool)
        ensures
            final(self)@ == old(self)@.insert_component(entity, value@),
            live == is_live(old(self)@.entities, entity),
    {
        let ghost before = self@;
        proof {
            use_type_invariant(&*self);
            lemma_find_entity(before.entities, entity);
        }
        match self.position(entity) {
            Some(i) => {
                let mut entities: Vec<SaveableEntity> = Vec::new();
                core::mem::swap(&mut self.entities, &mut entities);
                assert(self.entities.deep_view() =~= Seq::empty());
                put(&mut entities[i].components, value);
                proof {
                    assert(entities.deep_view() =~= before.insert_component(
                        entity,
                        value@,
                    ).entities);
                    lemma_insert_component(before, entity, value@);
                }
                self.entities = entities;
                true
            },
            None => false,
        }
    }

    /// Makes `value` a resource of the scene, in place of the resource of the
    /// same type where there is one.
    pub fn insert_resource(&mut self, value: TypedValue)
        ensures
            final(self)@ == old(self)@.insert_resource(value@),
    {
        let ghost before = self@;
        proof {
            use_type_invariant(&*self);
        }
        let mut resources: Vec<TypedValue> = Vec::new();
        core::mem::swap(&mut self.resources, &mut resources);
        assert(self.resources.deep_view() =~= Seq::empty());
        put(&mut resources, value);
        proof {
            lemma_put_value(before.resources, value@);
        }
        self.resources = resources;
    }

    /// Rewrites the entity references in every value of the type of `reg`
    /// under `entity_map`: in the resource of that type, then in the
    /// component of that type of each entity in turn. The first failure ends
    /// it; what was rewritten until then stays.
    pub fn map_entities(
        &mut self,
        reg: &TypeRegistration,
        entity_map: &EntityMap,
    ) -> (res: Result<(), MapEntitiesError>)
        ensures
            final(self)@ == old(self)@.map_entities(*reg, entries(*entity_map)).0,
            match res {
                Ok(_) => old(self)@.map_entities(*reg, entries(*entity_map)).1 is None,
                Err(e) => old(self)@.map_entities(*reg, entries(*entity_map)).1 == Some(e),
            },
    {
        let ghost before = self@;
        proof {
            use_type_invariant(&*self);
            lemma_rewrite_value(before.resources, *reg, entries(*entity_map));
            lemma_map_entities(before, *reg, entries(*entity_map));
        }
        if reg.map_entities.is_none() {
            return Ok(());
        }
        let mut resources: Vec<TypedValue> = Vec::new();
        core::mem::swap(&mut self.resources, &mut resources);
        assert(self.resources.deep_view() =~= Seq::empty());
        let rewritten = rewrite(&mut resources, reg, entity_map);
        self.resources = resources;
        if let Err(e) = rewritten {
            return Err(e);
        }
        let ghost start = self@;
        let ghost target = before.map_entities(*reg, entries(*entity_map));
        let mut entities: Vec<SaveableEntity> = Vec::new();
        core::mem::swap(&mut self.entities, &mut entities);
        assert(self.entities.deep_view() =~= Seq::empty());
        let mut i: usize = 0;
        let mut failure: Option<MapEntitiesError> = None;
        while i < entities.len() && failure.is_none()
            invariant
                i <= entities.len(),
                start.wf(),
                (SceneView { entities: entities.deep_view(), ..start }).wf(),
                failure is None ==> (SceneView {
                    entities: entities.deep_view(),
                    ..start
                }).map_entities_from(*reg, entries(*entity_map), i as int) == target,
                failure is Some ==> target == ((SceneView {
                    entities: entities.deep_view(),
                    ..start
                }), failure),
            decreases entities.len() - i + (if failure is None { 1int } else { 0int }),
        {
            let ghost current = SceneView { entities: entities.deep_view(), ..start };
            proof {
                lemma_rewrite_value(current.entities[i as int].components, *reg, entries(*entity_map));
            }
            match rewrite(&mut entities[i].components, reg, entity_map) {
                Ok(_) => {
                    proof {
                        let (components, err) = rewrite_value(
                            current.entities[i as int].components,
                            *reg,
                            entries(*entity_map),
                        );
                        let next = SceneView {
                            entities: current.entities.update(
                                i as int,
                                EntityView { entity: current.entities[i as int].entity, components },
                            ),
                            ..current
                        };
                        assert(entities.deep_view() =~= next.entities);
                        assert(next.wf()) by {
                            assert forall|k: int|
                                0 <= k < next.entities.len() implies distinct_types(
                                (#[trigger] next.entities[k]).components,
                            ) && next.entities[k].entity < next.next by {
                                assert(current.entities[k].entity < current.next);
                                assert(distinct_types(current.entities[k].components));
                            }
                            assert forall|k: int, j: int|
                                0 <= k < j < next.entities.len() implies (
                            #[trigger] next.entities[k]).entity != (
                            #[trigger] next.entities[j]).entity by {
                                assert(current.entities[k].entity != current.entities[j].entity);
                            }
                        }
                    }
                    i += 1;
                },
                Err(e) => {
                    assert(entities.deep_view() =~= current.entities);
                    failure = Some(e);
                },
            }
        }
        self.entities = entities;
        match failure {
            Some(e) => Err(e),
            None => Ok(()),
        }
    }
}

/// A world: its scene, the registries that say how the scene is saved, and
/// the rollbacks taken of it.
pub struct World {
    /// The live entities and the resources.
    pub scene: Scene,
    /// The types that values can have, with their capabilities.
    pub registry: TypeRegistry,
    /// The types that may be saved.
    pub saveables: SaveableRegistry,
    /// The rollbacks taken so far.
    pub rollbacks: Rollbacks,
}

impl World {
    /// A world without entities, resources, registered types or rollbacks.
    pub fn new() -> (world: World)
        ensures
            world.scene@ == (SceneView {
                resources: Seq::empty(),
                entities: Seq::empty(),
                next: 0,
            }),
            world.registry@ == Seq::<TypeRegistration>::empty(),
            world.saveables@.len() == 0,
            world.rollbacks@.checkpoints.len() == 0,
            world.rollbacks@.active is None,
    {
        World {
            scene: Scene::new(),
            registry: TypeRegistry::new(),
            saveables: SaveableRegistry::new(),
            rollbacks: Rollbacks::new(),
        }
    }
}

} // verus!
