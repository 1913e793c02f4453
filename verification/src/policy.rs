//! The policies of applying a snapshot: which live entities are despawned,
//! and how the entities of the snapshot find their live entities.

use crate::entity::{map_identity, try_map_identity, EntityView};
use crate::filter::{EntityFilter, Filter};
use crate::world::is_live;
use vstd::prelude::*;

verus! {

/// Which of the live entities are despawned when a snapshot is applied.
pub enum DespawnMode<F = ()> {
    /// Despawn the entities that are missing from the snapshot.
    Missing,
    /// Despawn the entities that are missing from the snapshot and match the filter.
    MissingWith(Filter<F>),
    /// Despawn the entities that no entity of the snapshot is mapped to.
    Unmapped,
    /// Despawn the entities that no entity of the snapshot is mapped to and
    /// that match the filter.
    UnmappedWith(Filter<F>),
    /// Despawn all entities that match the filter.
    AllWith(Filter<F>),
    /// Keep all entities.
    KeepAll,
}

impl Default for DespawnMode {
    fn default() -> (mode: Self)
        ensures
            mode == DespawnMode::<()>::Missing,
    {
        DespawnMode::Missing
    }
}

impl DespawnMode {
    /// The mode that despawns the unmapped entities that match `filter`.
    pub fn unmapped_with<F>(filter: F) -> (mode: DespawnMode<F>)
        ensures
            mode == DespawnMode::UnmappedWith((Filter { filter })),
    {
        DespawnMode::UnmappedWith(Filter::new(filter))
    }

    /// The mode that despawns all entities that match `filter`.
    pub fn all_with<F>(filter: F) -> (mode: DespawnMode<F>)
        ensures
            mode == DespawnMode::AllWith((Filter { filter })),
    {
        DespawnMode::AllWith(Filter::new(filter))
    }
}

/// How an entity of the snapshot without an entry in the entity map finds
/// its live entity.
pub enum MappingMode {
    /// Take the live entity with the same identity, and spawn one where
    /// there is none.
    Simple,
    /// Always spawn a new entity.
    Strict,
}

impl Default for MappingMode {
    fn default() -> (mode: Self)
        ensures
            mode == MappingMode::Simple,
    {
        MappingMode::Simple
    }
}

/// The identities that stand for the entities of `snapshot` in the live
/// world: what the entity map gives to each, or its own identity where the
/// map has no entry for it.
pub open spec fn present_identities(snapshot: Seq<EntityView>, entity_map: Map<u32, u32>) -> Set<
    u32,
> {
    Set::new(
        |id: u32|
            exists|i: int|
                0 <= i < snapshot.len() && try_map_identity(
                    entity_map,
                    (#[trigger] snapshot[i]).entity,
                ) == id,
    )
}

/// The identities that the entity map gives to the entities of `snapshot`.
pub open spec fn mapped_identities(snapshot: Seq<EntityView>, entity_map: Map<u32, u32>) -> Set<
    u32,
> {
    Set::new(
        |id: u32|
            exists|i: int|
                0 <= i < snapshot.len() && map_identity(
                    entity_map,
                    (#[trigger] snapshot[i]).entity,
                ) == Some(id),
    )
}

impl<F: EntityFilter> DespawnMode<F> {
    /// Whether the mode despawns the live entity `entity` when `snapshot` is
    /// applied under `entity_map`.
    pub open spec fn dooms(
        self,
        snapshot: Seq<EntityView>,
        entity_map: Map<u32, u32>,
        entity: EntityView,
    ) -> bool {
        match self {
            DespawnMode::Missing => !present_identities(snapshot, entity_map).contains(
                entity.entity,
            ),
            DespawnMode::MissingWith(f) => !present_identities(snapshot, entity_map).contains(
                entity.entity,
            ) && f.filter.admits(entity),
            DespawnMode::Unmapped => !mapped_identities(snapshot, entity_map).contains(
                entity.entity,
            ),
            DespawnMode::UnmappedWith(f) => !mapped_identities(snapshot, entity_map).contains(
                entity.entity,
            ) && f.filter.admits(entity),
            DespawnMode::AllWith(f) => f.filter.admits(entity),
            DespawnMode::KeepAll => false,
        }
    }

    /// The identities of the live entities that the mode despawns.
    pub open spec fn doomed(
        self,
        entities: Seq<EntityView>,
        snapshot: Seq<EntityView>,
        entity_map: Map<u32, u32>,
    ) -> Set<u32> {
        Set::new(
            |id: u32|
                exists|i: int|
                    0 <= i < entities.len() && (#[trigger] entities[i]).entity == id && self.dooms(
                        snapshot,
                        entity_map,
                        entities[i],
                    ),
        )
    }
}

impl MappingMode {
    /// The map that stands in for the entity map where that has no entry:
    /// every live identity to itself, or nothing at all.
    pub open spec fn fallback(self, entities: Seq<EntityView>) -> Map<u32, u32> {
        match self {
            MappingMode::Simple => Map::new(|id: u32| is_live(entities, id), |id: u32| id),
            MappingMode::Strict => Map::empty(),
        }
    }
}

/// The live identity for the entity `entity` of a snapshot: what the entity
/// map gives it, else what the fallback gives it, else none, and a new
/// entity is to be spawned.
pub open spec fn resolve(entity_map: Map<u32, u32>, fallback: Map<u32, u32>, entity: u32) -> Option<
    u32,
> {
    if entity_map.contains_key(entity) {
        Some(entity_map[entity])
    } else if fallback.contains_key(entity) {
        Some(fallback[entity])
    } else {
        None
    }
}

} // verus!
