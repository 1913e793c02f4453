//! Captured entities and the mapping from captured to live identities.

use crate::value::{TypedValue, ValueView};
use bevy::ecs::entity::{Entity, EntityMap};
use vstd::prelude::*;

verus! {

/// Why the entity references of a value could not be rewritten.
#[derive(Debug, Clone, Copy, PartialEq, Eq)]
pub enum MapEntitiesError {
    /// The mapping has no entry for this identity.
    EntityNotFound(u32),
}

/// Bevy's `EntityMap`, a mapping from one set of entities to another. It is
/// taken as it is; what it holds is named by [`entries`].
#[verifier::external_type_specification]
#[verifier::external_body]
pub struct ExEntityMap(bevy::ecs::entity::EntityMap);

/// What an entity map holds, in the identities of this library: the raw
/// index `from` has the entry `to` where the map maps `Entity::from_raw(from)`
/// to an entity with the index `to`.
pub uninterp spec fn entries(entity_map: EntityMap) -> Map<u32, u32>;

/// The entries of a map that maps nothing.
pub open spec fn no_entries() -> Map<u32, u32> {
    Map::empty()
}

/// `EntityMap::default`: a map without entries.
#[verifier::external_body]
pub(crate) fn empty_entity_map() -> (made: EntityMap)
    ensures
        entries(made) == no_entries(),
{
    EntityMap::default()
}

/// `EntityMap::get` on `Entity::from_raw(entity)`: the index of the entity
/// that the map gives, and none where the map answers that it has no entry.
#[verifier::external_body]
pub(crate) fn mapped_entity(entity_map: &EntityMap, entity: u32) -> (to: Option<u32>)
    ensures
        to == map_identity(entries(*entity_map), entity),
{
    match entity_map.get(Entity::from_raw(entity)) {
        Ok(to) => Some(to.index()),
        Err(_) => None,
    }
}

/// `EntityMap::insert` of `Entity::from_raw(from)` and `Entity::from_raw(to)`:
/// afterwards the map gives `to` for `from`, and what it gave before for
/// every other entity.
#[verifier::external_body]
pub(crate) fn map_entity(entity_map: &mut EntityMap, from: u32, to: u32)
    ensures
        entries(*final(entity_map)) == entries(*old(entity_map)).insert(from, to),
{
    entity_map.insert(Entity::from_raw(from), Entity::from_raw(to));
}

/// The capability of a type to have the entity references inside its values
/// rewritten. An implementation knows how the values of one type are
/// serialized; the contract ties what it returns to its own specification, so
/// that callers can state exactly what a rewrite leaves behind.
pub trait MapEntities {
    /// The serialized value with every entity reference replaced by what
    /// `entity_map` maps it to, or the reason why that cannot be done.
    spec fn mapped(&self, data: Seq<u8>, entity_map: Map<u32, u32>) -> Result<
        Seq<u8>,
        MapEntitiesError,
    >;

    /// Rewrites the entity references of one serialized value.
    fn map_entities(
        &self,
        data: &Vec<u8>,
        entity_map: &EntityMap,
    ) -> (res: Result<Vec<u8>, MapEntitiesError>)
        ensures
            match res {
                Ok(rewritten) => self.mapped(data@, entries(*entity_map)) == Ok::<
                    Seq<u8>,
                    MapEntitiesError,
                >(rewritten@),
                Err(e) => self.mapped(data@, entries(*entity_map)) == Err::<
                    Seq<u8>,
                    MapEntitiesError,
                >(e),
            },
    ;
}

/// The mathematical content of what a rewriter returns.
pub open spec fn rewritten_view(res: Result<Vec<u8>, MapEntitiesError>) -> Result<
    Seq<u8>,
    MapEntitiesError,
> {
    match res {
        Ok(data) => Ok(data@),
        Err(e) => Err(e),
    }
}

/// Whether the executable function `rewrite` can stand for a rewriter: it
/// can be called on every value and entity map, and what it returns depends
/// on what they hold alone.
pub open spec fn is_rewriter<F: Fn(&Vec<u8>, &EntityMap) -> Result<Vec<u8>, MapEntitiesError>>(
    rewrite: F,
) -> bool {
    &&& forall|data: &Vec<u8>, entity_map: &EntityMap| #[trigger] rewrite.requires((data, entity_map))
    &&& forall|
        data: &Vec<u8>,
        entity_map: &EntityMap,
        res: Result<Vec<u8>, MapEntitiesError>,
        other_data: &Vec<u8>,
        other_map: &EntityMap,
        other_res: Result<Vec<u8>, MapEntitiesError>,
    |
        #![trigger rewrite.ensures((data, entity_map), res), rewrite.ensures((other_data, other_map), other_res)]
        data@ == other_data@ && entries(*entity_map) == entries(*other_map) && rewrite.ensures(
            (data, entity_map),
            res,
        ) && rewrite.ensures((other_data, other_map), other_res) ==> rewritten_view(res)
            == rewritten_view(other_res)
}

/// A rewriter made of an executable function, for the types of a host.
pub struct MapWith<F: Fn(&Vec<u8>, &EntityMap) -> Result<Vec<u8>, MapEntitiesError>> {
    rewrite: F,
}

impl<F: Fn(&Vec<u8>, &EntityMap) -> Result<Vec<u8>, MapEntitiesError>> MapWith<F> {
    #[verifier::type_invariant]
    spec fn inv(&self) -> bool {
        is_rewriter(self.rewrite)
    }

    /// The function that the rewriter calls.
    pub closed spec fn function(&self) -> F {
        self.rewrite
    }

    /// The rewriter that calls `rewrite`.
    pub fn new(rewrite: F) -> (rewriter: Self)
        requires
            is_rewriter(rewrite),
        ensures
            rewriter.function() == rewrite,
    {
        MapWith { rewrite }
    }
}

impl<F: Fn(&Vec<u8>, &EntityMap) -> Result<Vec<u8>, MapEntitiesError>> MapEntities for MapWith<F> {
    /// What the function returns on a value and an entity map that hold
    /// `data` and `entity_map`.
    open spec fn mapped(&self, data: Seq<u8>, entity_map: Map<u32, u32>) -> Result<
        Seq<u8>,
        MapEntitiesError,
    > {
        let (value, map, res) = choose|
            value: Vec<u8>,
            map: EntityMap,
            res: Result<Vec<u8>, MapEntitiesError>,
        |
            value@ == data && entries(map) == entity_map && self.function().ensures((&value, &map), res);
        rewritten_view(res)
    }

    fn map_entities(&self, data: &Vec<u8>, entity_map: &EntityMap) -> (res: Result<
        Vec<u8>,
        MapEntitiesError,
    >) {
        proof {
            use_type_invariant(self);
        }
        let res = (self.rewrite)(data, entity_map);
        proof {
            let (value, map, other) = choose|
                value: Vec<u8>,
                map: EntityMap,
                other: Result<Vec<u8>, MapEntitiesError>,
            |
                value@ == data@ && entries(map) == entries(*entity_map) && self.function().ensures(
                    (&value, &map),
                    other,
                );
            assert(data@ == data@ && entries(*entity_map) == entries(*entity_map) && self.function().ensures(
                (data, entity_map),
                res,
            ));
            assert(rewritten_view(other) == rewritten_view(res));
        }
        res
    }
}

/// The live identity that `entity_map` gives to the captured identity `entity`, if any.
pub open spec fn map_identity(entity_map: Map<u32, u32>, entity: u32) -> Option<u32> {
    if entity_map.contains_key(entity) {
        Some(entity_map[entity])
    } else {
        None
    }
}

/// The live identity that `entity_map` gives to `entity`, or `entity` itself
/// where the mapping has no entry for it.
pub open spec fn try_map_identity(entity_map: Map<u32, u32>, entity: u32) -> u32 {
    if entity_map.contains_key(entity) {
        entity_map[entity]
    } else {
        entity
    }
}

/// An entity as it is saved: its identity and its serialized components, in
/// the order in which the entity declares them.
pub struct SaveableEntity {
    pub entity: u32,
    pub components: Vec<TypedValue>,
}

/// The mathematical content of a [`SaveableEntity`].
pub struct EntityView {
    pub entity: u32,
    pub components: Seq<ValueView>,
}

impl View for SaveableEntity {
    type V = EntityView;

    open spec fn view(&self) -> EntityView {
        EntityView { entity: self.entity, components: self.components.deep_view() }
    }
}

impl DeepView for SaveableEntity {
    type V = EntityView;

    open spec fn deep_view(&self) -> EntityView {
        self@
    }
}

/// A deep copy of a list of values.
pub fn clone_values(values: &Vec<TypedValue>) -> (copy: Vec<TypedValue>)
    ensures
        copy.deep_view() == values.deep_view(),
{
    let mut copy: Vec<TypedValue> = Vec::new();
    let mut i: usize = 0;
    while i < values.len()
        invariant
            i <= values.len(),
            copy.len() == i,
            forall|j: int| 0 <= j < i ==> (#[trigger] copy[j])@ == values[j]@,
        decreases values.len() - i,
    {
        copy.push(values[i].clone_value());
        i += 1;
    }
    assert(copy.deep_view() =~= values.deep_view());
    copy
}

impl SaveableEntity {
    /// The live identity that `entity_map` gives to this entity, if any.
    pub fn map(&self, entity_map: &EntityMap) -> (mapped: Option<u32>)
        ensures
            mapped == map_identity(entries(*entity_map), self.entity),
    {
        mapped_entity(entity_map, self.entity)
    }

    /// The live identity that `entity_map` gives to this entity, or the
    /// entity's own identity where the mapping has no entry for it.
    pub fn try_map(&self, entity_map: &EntityMap) -> (mapped: u32)
        ensures
            mapped == try_map_identity(entries(*entity_map), self.entity),
    {
        match mapped_entity(entity_map, self.entity) {
            Some(to) => to,
            None => self.entity,
        }
    }

    /// A deep copy that shares nothing with `self`.
    pub fn clone_value(&self) -> (copy: SaveableEntity)
        ensures
            copy@ == self@,
    {
        SaveableEntity { entity: self.entity, components: clone_values(&self.components) }
    }
}

/// A deep copy of a list of entities.
pub fn clone_entities(entities: &Vec<SaveableEntity>) -> (copy: Vec<SaveableEntity>)
    ensures
        copy.deep_view() == entities.deep_view(),
{
    let mut copy: Vec<SaveableEntity> = Vec::new();
    let mut i: usize = 0;
    while i < entities.len()
        invariant
            i <= entities.len(),
            copy.len() == i,
            forall|j: int| 0 <= j < i ==> (#[trigger] copy[j])@ == entities[j]@,
        decreases entities.len() - i,
    {
        copy.push(entities[i].clone_value());
        i += 1;
    }
    assert(copy.deep_view() =~= entities.deep_view());
    copy
}

} // verus!
