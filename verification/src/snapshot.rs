//! Snapshots and rollbacks of a world, and the applier that configures how
//! one of them is applied.

use crate::apply::{apply_raw, apply_snapshot, can_apply, lemma_can_apply_unmapped, Outcome};
use crate::capture::{admitted_by, capture, capture_rule, every_type, is_predicate};
use crate::entity::{
    clone_entities, clone_values, empty_entity_map, entries, no_entries, EntityView,
    SaveableEntity,
};
use crate::error::{error_of, SaveableError};
use crate::filter::EntityFilter;
use crate::policy::{DespawnMode, MappingMode};
use crate::registry::TypeRegistration;
use crate::rollbacks::{Rollbacks, RollbacksView};
use crate::value::{TypedValue, ValueView};
use crate::world::{World, IDENTITIES};
use bevy::ecs::entity::EntityMap;
use vstd::prelude::*;

verus! {

/// The captured state of a world: its resources and its entities.
pub struct RawSnapshot {
    pub resources: Vec<TypedValue>,
    pub entities: Vec<SaveableEntity>,
}

/// The mathematical content of a [`RawSnapshot`].
pub struct SnapshotView {
    pub resources: Seq<ValueView>,
    pub entities: Seq<EntityView>,
}

impl View for RawSnapshot {
    type V = SnapshotView;

    open spec fn view(&self) -> SnapshotView {
        SnapshotView {
            resources: self.resources.deep_view(),
            entities: self.entities.deep_view(),
        }
    }
}

impl RawSnapshot {
    /// Captures the state of `world`: of every type that may be saved, is
    /// registered and on which `filter` returns `true`, the resource where
    /// the world holds one, and for every live entity a record with its
    /// components of such types. Capturing never fails.
    pub fn from_world_with_filter<F: Fn(&TypeRegistration) -> bool>(
        world: &World,
        filter: F,
    ) -> (snapshot: RawSnapshot)
        requires
            is_predicate(filter),
        ensures
            snapshot@ == capture_rule(world, false, admitted_by(filter)).capture(world.scene@),
    {
        capture(world, false, filter)
    }

    /// A deep copy that shares nothing with `self`.
    pub fn clone_value(&self) -> (copy: RawSnapshot)
        ensures
            copy@ == self@,
    {
        RawSnapshot {
            resources: clone_values(&self.resources),
            entities: clone_entities(&self.entities),
        }
    }
}

/// The configuration of one application of a snapshot to a world: the
/// entity map, the despawn mode and the mapping mode.
pub struct Applier<'a, S, F = ()> {
    pub world: &'a mut World,
    pub snapshot: S,
    pub map: EntityMap,
    pub despawn: DespawnMode<F>,
    pub mapping: MappingMode,
}

impl<'a, S> Applier<'a, S> {
    /// An applier of `snapshot` to `world` with the default settings: an
    /// empty entity map, despawning what is missing, and the simple mapping.
    pub fn new(world: &'a mut World, snapshot: S) -> (applier: Self)
        ensures
            *applier.world == *old(world),
            *final(applier.world) == *final(world),
            applier.snapshot == snapshot,
            entries(applier.map) == no_entries(),
            applier.despawn == DespawnMode::<()>::Missing,
            applier.mapping == MappingMode::Simple,
    {
        Applier {
            world,
            snapshot,
            map: empty_entity_map(),
            despawn: DespawnMode::default(),
            mapping: MappingMode::default(),
        }
    }

    /// The same applier with `map` as its entity map.
    pub fn map(self, map: EntityMap) -> (applier: Self)
        ensures
            *applier.world == *old(self.world),
            *final(applier.world) == *final(self.world),
            applier.snapshot == self.snapshot,
            applier.map == map,
            applier.despawn == self.despawn,
            applier.mapping == self.mapping,
    {
        Applier {
            world: self.world,
            snapshot: self.snapshot,
            map,
            despawn: self.despawn,
            mapping: self.mapping,
        }
    }

    /// The same applier with `mode` as its mapping mode.
    pub fn mapping(self, mode: MappingMode) -> (applier: Self)
        ensures
            *applier.world == *old(self.world),
            *final(applier.world) == *final(self.world),
            applier.snapshot == self.snapshot,
            applier.map == self.map,
            applier.despawn == self.despawn,
            applier.mapping == mode,
    {
        Applier {
            world: self.world,
            snapshot: self.snapshot,
            map: self.map,
            despawn: self.despawn,
            mapping: mode,
        }
    }

    /// The same applier with `mode` as its despawn mode.
    pub fn despawn<F>(self, mode: DespawnMode<F>) -> (applier: Applier<'a, S, F>)
        ensures
            *applier.world == *old(self.world),
            *final(applier.world) == *final(self.world),
            applier.snapshot == self.snapshot,
            applier.map == self.map,
            applier.despawn == mode,
            applier.mapping == self.mapping,
    {
        Applier {
            world: self.world,
            snapshot: self.snapshot,
            map: self.map,
            despawn: mode,
            mapping: self.mapping,
        }
    }
}

impl<'a, F: EntityFilter> Applier<'a, &'a RawSnapshot, F> {
    /// Applies the snapshot to the world. What was applied before an error stays.
    pub fn apply(self) -> (res: Result<(), SaveableError>)
        requires
            can_apply(
                old(self.world).scene@,
                old(self.world).registry@,
                self.snapshot@,
                entries(self.map),
                self.despawn,
            ),
        ensures
            (Outcome { scene: final(self.world).scene@, error: error_of(res) }) == apply_snapshot(
                old(self.world).scene@,
                old(self.world).registry@,
                self.snapshot@,
                entries(self.map),
                self.despawn,
                self.mapping,
            ),
            final(self.world).registry == old(self.world).registry,
            final(self.world).saveables == old(self.world).saveables,
            final(self.world).rollbacks == old(self.world).rollbacks,
    {
        apply_raw(self.world, self.snapshot, &self.map, &self.despawn, &self.mapping)
    }
}

/// A rollback snapshot of a world: the state of the types that rollbacks include.
pub struct Rollback {
    pub snapshot: RawSnapshot,
}

impl View for Rollback {
    type V = SnapshotView;

    open spec fn view(&self) -> SnapshotView {
        self.snapshot@
    }
}

impl DeepView for Rollback {
    type V = SnapshotView;

    open spec fn deep_view(&self) -> SnapshotView {
        self@
    }
}

impl<'a, F: EntityFilter> Applier<'a, Rollback, F> {
    /// Applies the rollback to the world. What was applied before an error stays.
    pub fn apply(self) -> (res: Result<(), SaveableError>)
        requires
            can_apply(
                old(self.world).scene@,
                old(self.world).registry@,
                self.snapshot@,
                entries(self.map),
                self.despawn,
            ),
        ensures
            (Outcome { scene: final(self.world).scene@, error: error_of(res) }) == apply_snapshot(
                old(self.world).scene@,
                old(self.world).registry@,
                self.snapshot@,
                entries(self.map),
                self.despawn,
                self.mapping,
            ),
            final(self.world).registry == old(self.world).registry,
            final(self.world).saveables == old(self.world).saveables,
            final(self.world).rollbacks == old(self.world).rollbacks,
    {
        apply_raw(self.world, &self.snapshot.snapshot, &self.map, &self.despawn, &self.mapping)
    }
}

impl<'a, F: EntityFilter> Applier<'a, &'a Rollback, F> {
    /// Applies the rollback to the world. What was applied before an error stays.
    pub fn apply(self) -> (res: Result<(), SaveableError>)
        requires
            can_apply(
                old(self.world).scene@,
                old(self.world).registry@,
                self.snapshot@,
                entries(self.map),
                self.despawn,
            ),
        ensures
            (Outcome { scene: final(self.world).scene@, error: error_of(res) }) == apply_snapshot(
                old(self.world).scene@,
                old(self.world).registry@,
                self.snapshot@,
                entries(self.map),
                self.despawn,
                self.mapping,
            ),
            final(self.world).registry == old(self.world).registry,
            final(self.world).saveables == old(self.world).saveables,
            final(self.world).rollbacks == old(self.world).rollbacks,
    {
        apply_raw(self.world, &self.snapshot.snapshot, &self.map, &self.despawn, &self.mapping)
    }
}

impl Rollback {
    /// Captures a rollback of `world`: the state of the types that may be
    /// saved, that rollbacks include and that are registered.
    pub fn from_world(world: &World) -> (rollback: Rollback)
        ensures
            rollback@ == capture_rule(world, true, every_type()).capture(world.scene@),
    {
        let all = |reg: &TypeRegistration| -> (taken: bool)
            ensures
                taken,
            { true };
        let rollback = Self::from_world_with_filter(world, all);
        assert(admitted_by(all) =~= every_type());
        rollback
    }

    /// Captures a rollback of `world`: the state of the types that may be
    /// saved, that rollbacks include, that are registered and on which
    /// `filter` returns `true`.
    pub fn from_world_with_filter<F: Fn(&TypeRegistration) -> bool>(
        world: &World,
        filter: F,
    ) -> (rollback: Rollback)
        requires
            is_predicate(filter),
        ensures
            rollback@ == capture_rule(world, true, admitted_by(filter)).capture(world.scene@),
    {
        Rollback { snapshot: capture(world, true, filter) }
    }

    /// Applies the rollback to `world` with the default settings: an empty
    /// entity map, despawning what is missing from the rollback, and the
    /// simple mapping. What was applied before an error stays.
    pub fn apply(&self, world: &mut World) -> (res: Result<(), SaveableError>)
        requires
            old(world).scene@.next + self@.entities.len() <= IDENTITIES,
        ensures
            (Outcome { scene: final(world).scene@, error: error_of(res) }) == apply_snapshot(
                old(world).scene@,
                old(world).registry@,
                self@,
                no_entries(),
                DespawnMode::<()>::Missing,
                MappingMode::Simple,
            ),
            final(world).registry == old(world).registry,
            final(world).saveables == old(world).saveables,
            final(world).rollbacks == old(world).rollbacks,
    {
        proof {
            lemma_can_apply_unmapped(
                world.scene@,
                world.registry@,
                self@,
                DespawnMode::<()>::Missing,
            );
        }
        self.applier(world).apply()
    }

    /// An applier of this rollback to `world` with the default settings.
    pub fn applier<'a>(&'a self, world: &'a mut World) -> (applier: Applier<'a, &'a Rollback>)
        ensures
            *applier.world == *old(world),
            *final(applier.world) == *final(world),
            applier.snapshot == self,
            entries(applier.map) == no_entries(),
            applier.despawn == DespawnMode::<()>::Missing,
            applier.mapping == MappingMode::Simple,
    {
        Applier::new(world, self)
    }

    /// An applier that owns this rollback, with the default settings.
    pub fn into_applier<'a>(self, world: &'a mut World) -> (applier: Applier<'a, Rollback>)
        ensures
            *applier.world == *old(world),
            *final(applier.world) == *final(world),
            applier.snapshot == self,
            entries(applier.map) == no_entries(),
            applier.despawn == DespawnMode::<()>::Missing,
            applier.mapping == MappingMode::Simple,
    {
        Applier::new(world, self)
    }

    /// A deep copy that shares nothing with `self`.
    pub fn clone_value(&self) -> (copy: Rollback)
        ensures
            copy@ == self@,
    {
        Rollback { snapshot: self.snapshot.clone_value() }
    }
}

/// A complete snapshot of a world: the state of every type that may be
/// saved, and the rollbacks that the world had when it was taken.
pub struct Snapshot {
    pub snapshot: RawSnapshot,
    pub rollbacks: Rollbacks,
}

/// The mathematical content of a [`Snapshot`].
pub struct FullSnapshotView {
    pub snapshot: SnapshotView,
    pub rollbacks: RollbacksView,
}

impl View for Snapshot {
    type V = FullSnapshotView;

    open spec fn view(&self) -> FullSnapshotView {
        FullSnapshotView { snapshot: self.snapshot@, rollbacks: self.rollbacks@ }
    }
}

/// The outcome of applying a complete snapshot: where the state went
/// through, the rollbacks of the snapshot take the place of the world's.
pub open spec fn restored_rollbacks(
    outcome: Outcome,
    before: RollbacksView,
    snapshot: RollbacksView,
) -> RollbacksView {
    if outcome.error is None {
        snapshot
    } else {
        before
    }
}

impl<'a, F: EntityFilter> Applier<'a, Snapshot, F> {
    /// Applies the snapshot to the world and, where that went through, puts
    /// the rollbacks of the snapshot in the place of the world's. What was
    /// applied before an error stays, and the world keeps its rollbacks.
    pub fn apply(self) -> (res: Result<(), SaveableError>)
        requires
            can_apply(
                old(self.world).scene@,
                old(self.world).registry@,
                self.snapshot@.snapshot,
                entries(self.map),
                self.despawn,
            ),
        ensures
            (Outcome { scene: final(self.world).scene@, error: error_of(res) }) == apply_snapshot(
                old(self.world).scene@,
                old(self.world).registry@,
                self.snapshot@.snapshot,
                entries(self.map),
                self.despawn,
                self.mapping,
            ),
            final(self.world).rollbacks@ == restored_rollbacks(
                (Outcome { scene: final(self.world).scene@, error: error_of(res) }),
                old(self.world).rollbacks@,
                self.snapshot@.rollbacks,
            ),
            final(self.world).registry == old(self.world).registry,
            final(self.world).saveables == old(self.world).saveables,
    {
        if let Err(e) = apply_raw(
            self.world,
            &self.snapshot.snapshot,
            &self.map,
            &self.despawn,
            &self.mapping,
        ) {
            return Err(e);
        }
        self.world.rollbacks = self.snapshot.rollbacks.clone_value();
        Ok(())
    }
}

impl<'a, F: EntityFilter> Applier<'a, &'a Snapshot, F> {
    /// Applies the snapshot to the world and, where that went through, puts
    /// the rollbacks of the snapshot in the place of the world's. What was
    /// applied before an error stays, and the world keeps its rollbacks.
    pub fn apply(self) -> (res: Result<(), SaveableError>)
        requires
            can_apply(
                old(self.world).scene@,
                old(self.world).registry@,
                self.snapshot@.snapshot,
                entries(self.map),
                self.despawn,
            ),
        ensures
            (Outcome { scene: final(self.world).scene@, error: error_of(res) }) == apply_snapshot(
                old(self.world).scene@,
                old(self.world).registry@,
                self.snapshot@.snapshot,
                entries(self.map),
                self.despawn,
                self.mapping,
            ),
            final(self.world).rollbacks@ == restored_rollbacks(
                (Outcome { scene: final(self.world).scene@, error: error_of(res) }),
                old(self.world).rollbacks@,
                self.snapshot@.rollbacks,
            ),
            final(self.world).registry == old(self.world).registry,
            final(self.world).saveables == old(self.world).saveables,
    {
        if let Err(e) = apply_raw(
            self.world,
            &self.snapshot.snapshot,
            &self.map,
            &self.despawn,
            &self.mapping,
        ) {
            return Err(e);
        }
        self.world.rollbacks = self.snapshot.rollbacks.clone_value();
        Ok(())
    }
}

impl Snapshot {
    /// Captures a snapshot of `world`: the state of the types that may be
    /// saved and are registered, and a copy of the world's rollbacks.
    pub fn from_world(world: &World) -> (snapshot: Snapshot)
        ensures
            snapshot@.snapshot == capture_rule(world, false, every_type()).capture(world.scene@),
            snapshot@.rollbacks == world.rollbacks@,
    {
        let all = |reg: &TypeRegistration| -> (taken: bool)
            ensures
                taken,
            { true };
        let snapshot = Self::from_world_with_filter(world, all);
        assert(admitted_by(all) =~= every_type());
        snapshot
    }

    /// Captures a snapshot of `world`: the state of the types that may be
    /// saved, that are registered and on which `filter` returns `true`, and
    /// a copy of the world's rollbacks.
    pub fn from_world_with_filter<F: Fn(&TypeRegistration) -> bool>(
        world: &World,
        filter: F,
    ) -> (snapshot: Snapshot)
        requires
            is_predicate(filter),
        ensures
            snapshot@.snapshot == capture_rule(world, false, admitted_by(filter)).capture(
                world.scene@,
            ),
            snapshot@.rollbacks == world.rollbacks@,
    {
        let snapshot = RawSnapshot::from_world_with_filter(world, filter);
        let rollbacks = world.rollbacks.clone_value();
        Snapshot { snapshot, rollbacks }
    }

    /// Applies the snapshot to `world` with the default settings: an empty
    /// entity map, despawning what is missing from the snapshot, and the
    /// simple mapping. Where that went through, the rollbacks of the
    /// snapshot take the place of the world's. What was applied before an
    /// error stays, and the world keeps its rollbacks.
    pub fn apply(&self, world: &mut World) -> (res: Result<(), SaveableError>)
        requires
            old(world).scene@.next + self@.snapshot.entities.len() <= IDENTITIES,
        ensures
            (Outcome { scene: final(world).scene@, error: error_of(res) }) == apply_snapshot(
                old(world).scene@,
                old(world).registry@,
                self@.snapshot,
                no_entries(),
                DespawnMode::<()>::Missing,
                MappingMode::Simple,
            ),
            final(world).rollbacks@ == restored_rollbacks(
                (Outcome { scene: final(world).scene@, error: error_of(res) }),
                old(world).rollbacks@,
                self@.rollbacks,
            ),
            final(world).registry == old(world).registry,
            final(world).saveables == old(world).saveables,
    {
        proof {
            lemma_can_apply_unmapped(
                world.scene@,
                world.registry@,
                self@.snapshot,
                DespawnMode::<()>::Missing,
            );
        }
        self.applier(world).apply()
    }

    /// An applier of this snapshot to `world` with the default settings.
    pub fn applier<'a>(&'a self, world: &'a mut World) -> (applier: Applier<'a, &'a Snapshot>)
        ensures
            *applier.world == *old(world),
            *final(applier.world) == *final(world),
            applier.snapshot == self,
            entries(applier.map) == no_entries(),
            applier.despawn == DespawnMode::<()>::Missing,
            applier.mapping == MappingMode::Simple,
    {
        Applier::new(world, self)
    }

    /// An applier that owns this snapshot, with the default settings.
    pub fn into_applier<'a>(self, world: &'a mut World) -> (applier: Applier<'a, Snapshot>)
        ensures
            *applier.world == *old(world),
            *final(applier.world) == *final(world),
            applier.snapshot == self,
            entries(applier.map) == no_entries(),
            applier.despawn == DespawnMode::<()>::Missing,
            applier.mapping == MappingMode::Simple,
    {
        Applier::new(world, self)
    }

    /// A deep copy that shares nothing with `self`.
    pub fn clone_value(&self) -> (copy: Snapshot)
        ensures
            copy@ == self@,
    {
        Snapshot { snapshot: self.snapshot.clone_value(), rollbacks: self.rollbacks.clone_value() }
    }
}

} // verus!
