//! Capturing the state of a world: which values are taken, and in what order.

use crate::entity::{EntityView, SaveableEntity};
use crate::registry::{
    can_rollback, distinct_saveables, is_saveable, lemma_find_saveable_from, lookup, SaveableView,
    TypeRegistration,
};
use crate::snapshot::{RawSnapshot, SnapshotView};
use crate::value::{find_type, TypedValue, ValueView};
use crate::world::{SceneView, World};
use vstd::prelude::*;

verus! {

/// What decides whether a value is captured: the registered types, the types
/// that may be saved, whether only the types that rollbacks include are
/// taken, and the caller's own choice among the registered types.
pub struct CaptureRule {
    pub registry: Seq<TypeRegistration>,
    pub saveables: Seq<SaveableView>,
    pub rollback_only: bool,
    pub accept: spec_fn(TypeRegistration) -> bool,
}

impl CaptureRule {
    /// The registration under which values of the type `name` are captured:
    /// the type is saveable, for a rollback-only capture also included in
    /// rollbacks, registered, and admitted by the caller.
    pub open spec fn registration(self, name: Seq<char>) -> Option<TypeRegistration> {
        match lookup(self.registry, name) {
            Some(reg) => if is_saveable(self.saveables, name) && (self.rollback_only
                ==> can_rollback(self.saveables, name)) && (self.accept)(reg) {
                Some(reg)
            } else {
                None
            },
            None => None,
        }
    }

    /// Whether a resource of the type `name` is captured.
    pub open spec fn takes_resource(self, name: Seq<char>) -> bool {
        self.registration(name) matches Some(reg) && reg.resource
    }

    /// Whether a component of the type `name` is captured.
    pub open spec fn takes_component(self, name: Seq<char>) -> bool {
        self.registration(name) matches Some(reg) && reg.component
    }

    /// The resources captured for the saveable types from the index `from`
    /// on: for each type in turn, the resource of that type where the world
    /// holds one and the rule takes it.
    pub open spec fn resources_from(self, resources: Seq<ValueView>, from: int) -> Seq<ValueView>
        decreases self.saveables.len() - from,
    {
        if from < 0 || from >= self.saveables.len() {
            Seq::empty()
        } else {
            let name = self.saveables[from].name;
            let head = match find_type(resources, name) {
                Some(i) => if self.takes_resource(name) {
                    seq![resources[i]]
                } else {
                    Seq::empty()
                },
                None => Seq::empty(),
            };
            head + self.resources_from(resources, from + 1)
        }
    }

    /// The components captured from the index `from` on: those that the rule
    /// takes, in their order.
    pub open spec fn components_from(self, components: Seq<ValueView>, from: int) -> Seq<ValueView>
        decreases components.len() - from,
    {
        if from < 0 || from >= components.len() {
            Seq::empty()
        } else {
            let head = if self.takes_component(components[from].name) {
                seq![components[from]]
            } else {
                Seq::empty()
            };
            head + self.components_from(components, from + 1)
        }
    }

    /// The captured form of one entity: its identity and the components that
    /// the rule takes.
    pub open spec fn entity(self, entity: EntityView) -> EntityView {
        EntityView {
            entity: entity.entity,
            components: self.components_from(entity.components, 0),
        }
    }

    /// The capture of a scene: the resources that the rule takes, in the
    /// order of the saveable types, and one record for every live entity, in
    /// the order of the scene.
    pub open spec fn capture(self, scene: SceneView) -> SnapshotView {
        SnapshotView {
            resources: self.resources_from(scene.resources, 0),
            entities: Seq::new(scene.entities.len(), |i: int| self.entity(scene.entities[i])),
        }
    }
}

/// The rule by which a world is captured with the caller's choice `accept`.
pub open spec fn capture_rule(
    world: &World,
    rollback_only: bool,
    accept: spec_fn(TypeRegistration) -> bool,
) -> CaptureRule {
    CaptureRule { registry: world.registry@, saveables: world.saveables@, rollback_only, accept }
}

/// The choice among the registered types that the executable predicate
/// `filter` makes: the types on which it does not return `false`. For a
/// predicate, which gives one answer for each registration, these are the
/// types on which it returns `true`.
pub open spec fn admitted_by<F: Fn(&TypeRegistration) -> bool>(filter: F) -> spec_fn(
    TypeRegistration,
) -> bool {
    |reg: TypeRegistration| !filter.ensures((&reg,), false)
}

/// A predicate that can be called on every registration and gives one
/// answer for each.
pub open spec fn is_predicate<F: Fn(&TypeRegistration) -> bool>(filter: F) -> bool {
    &&& forall|reg: &TypeRegistration| #[trigger] filter.requires((reg,))
    &&& forall|reg: &TypeRegistration, a: bool, b: bool|
        #![trigger filter.ensures((reg,), a), filter.ensures((reg,), b)]
        filter.ensures((reg,), a) && filter.ensures((reg,), b) ==> a == b
}

/// The choice that takes every registered type.
pub open spec fn every_type() -> spec_fn(TypeRegistration) -> bool {
    |reg: TypeRegistration| true
}

/// Captures the state of `world` by the rule that the world's registries,
/// `rollback_only` and `filter` make. Capturing never fails.
pub fn capture<F: Fn(&TypeRegistration) -> bool>(
    world: &World,
    rollback_only: bool,
    filter: F,
) -> (snapshot: RawSnapshot)
    requires
        is_predicate(filter),
    ensures
        snapshot@ == capture_rule(world, rollback_only, admitted_by(filter)).capture(world.scene@),
{
    let ghost rule = capture_rule(world, rollback_only, admitted_by(filter));
    let saveables = &world.saveables;
    let registry = &world.registry;
    let scene = &world.scene;

    let mut resources: Vec<TypedValue> = Vec::new();
    let count = saveables.len();
    let mut k: usize = 0;
    while k < count
        invariant
            k <= count,
            count == saveables@.len(),
            is_predicate(filter),
            distinct_saveables(saveables@),
            rule == capture_rule(world, rollback_only, admitted_by(filter)),
            saveables@ == world.saveables@,
            registry@ == world.registry@,
            scene@ == world.scene@,
            resources.deep_view() + rule.resources_from(scene@.resources, k as int)
                == rule.resources_from(scene@.resources, 0),
        decreases count - k,
    {
        let saveable = saveables.get(k);
        let ghost name = saveable@.name;
        let ghost before = resources.deep_view();
        proof {
            lemma_find_saveable_from(saveables@, name, 0);
        }
        let mut taken = false;
        if !rollback_only || saveable.rollback {
            if let Some(reg) = registry.get_with_name(&saveable.name) {
                if filter(reg) && reg.resource {
                    taken = true;
                    if let Some(value) = scene.resource(&saveable.name) {
                        resources.push(value.clone_value());
                        assert(resources.deep_view() =~= before + seq![value@]);
                    }
                }
            }
        }
        assert(taken == rule.takes_resource(name));
        assert(resources.deep_view() + rule.resources_from(scene@.resources, k as int + 1)
            =~= before + rule.resources_from(scene@.resources, k as int));
        k += 1;
    }
    assert(resources.deep_view() =~= rule.resources_from(scene@.resources, 0));

    let mut entities: Vec<SaveableEntity> = Vec::new();
    let live = scene.entities();
    let mut i: usize = 0;
    while i < live.len()
        invariant
            i <= live.len(),
            is_predicate(filter),
            rule == capture_rule(world, rollback_only, admitted_by(filter)),
            saveables@ == world.saveables@,
            registry@ == world.registry@,
            live.deep_view() == world.scene@.entities,
            entities.len() == i,
            forall|j: int| 0 <= j < i ==> (#[trigger] entities[j])@ == rule.entity(live[j]@),
        decreases live.len() - i,
    {
        let source = &live[i];
        let mut components: Vec<TypedValue> = Vec::new();
        let mut c: usize = 0;
        while c < source.components.len()
            invariant
                c <= source.components.len(),
                is_predicate(filter),
                rule == capture_rule(world, rollback_only, admitted_by(filter)),
                saveables@ == world.saveables@,
                registry@ == world.registry@,
                components.deep_view() + rule.components_from(source@.components, c as int)
                    == rule.components_from(source@.components, 0),
            decreases source.components.len() - c,
        {
            let value = &source.components[c];
            let ghost before = components.deep_view();
            let mut taken = false;
            if saveables.contains(&value.name) && (!rollback_only || saveables.can_rollback(
                &value.name,
            )) {
                if let Some(reg) = registry.get_with_name(&value.name) {
                    if filter(reg) && reg.component {
                        taken = true;
                        components.push(value.clone_value());
                        assert(components.deep_view() =~= before + seq![value@]);
                    }
                }
            }
            assert(value@ == source@.components[c as int]);
            assert(taken == rule.takes_component(value@.name));
            assert(components.deep_view() + rule.components_from(source@.components, c as int + 1)
                =~= before + rule.components_from(source@.components, c as int));
            c += 1;
        }
        assert(components.deep_view() =~= rule.components_from(source@.components, 0));
        entities.push(SaveableEntity { entity: source.entity, components });
        i += 1;
    }
    assert(entities.deep_view() =~= rule.capture(world.scene@).entities);
    RawSnapshot { resources, entities }
}

} // verus!
