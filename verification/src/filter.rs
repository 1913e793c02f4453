//! Tests on live entities, by which a despawn mode picks its entities.

use crate::entity::{EntityView, SaveableEntity};
use crate::value::{has_type, lemma_find_type, position_of_type};
use vstd::prelude::*;

verus! {

/// A test on live entities, by which a despawn mode picks its entities.
pub trait EntityFilter {
    /// Whether the filter picks `entity`.
    spec fn admits(&self, entity: EntityView) -> bool;

    /// Tests one live entity.
    fn matches(&self, entity: &SaveableEntity) -> (picked: bool)
        ensures
            picked == self.admits(entity@),
    ;
}

/// The filter that picks every entity.
impl EntityFilter for () {
    open spec fn admits(&self, entity: EntityView) -> bool {
        true
    }

    fn matches(&self, entity: &SaveableEntity) -> (picked: bool) {
        true
    }
}

/// The filter that picks the entities with a component of the type `name`.
pub struct With {
    pub name: String,
}

impl EntityFilter for With {
    open spec fn admits(&self, entity: EntityView) -> bool {
        has_type(entity.components, self.name@)
    }

    fn matches(&self, entity: &SaveableEntity) -> (picked: bool) {
        proof {
            lemma_find_type(entity@.components, self.name@);
        }
        position_of_type(&entity.components, &self.name).is_some()
    }
}

/// The filter that picks the entities without a component of the type `name`.
pub struct Without {
    pub name: String,
}

impl EntityFilter for Without {
    open spec fn admits(&self, entity: EntityView) -> bool {
        !has_type(entity.components, self.name@)
    }

    fn matches(&self, entity: &SaveableEntity) -> (picked: bool) {
        proof {
            lemma_find_type(entity@.components, self.name@);
        }
        position_of_type(&entity.components, &self.name).is_none()
    }
}

/// Whether the executable function `test` can stand for a test on live
/// entities: it can be called on every entity, and what it returns depends
/// on what the entity holds alone.
pub open spec fn is_entity_test<P: Fn(&SaveableEntity) -> bool>(test: P) -> bool {
    &&& forall|entity: &SaveableEntity| #[trigger] test.requires((entity,))
    &&& forall|entity: &SaveableEntity, picked: bool, other: &SaveableEntity, other_picked: bool|
        #![trigger test.ensures((entity,), picked), test.ensures((other,), other_picked)]
        entity@ == other@ && test.ensures((entity,), picked) && test.ensures(
            (other,),
            other_picked,
        ) ==> picked == other_picked
}

/// The filter that picks the entities on which an executable function
/// returns `true`.
pub struct Matching<P: Fn(&SaveableEntity) -> bool> {
    test: P,
}

impl<P: Fn(&SaveableEntity) -> bool> Matching<P> {
    #[verifier::type_invariant]
    spec fn inv(&self) -> bool {
        is_entity_test(self.test)
    }

    /// The function that the filter calls.
    pub closed spec fn function(&self) -> P {
        self.test
    }

    /// The filter that calls `test`.
    pub fn new(test: P) -> (filter: Self)
        requires
            is_entity_test(test),
        ensures
            filter.function() == test,
    {
        Matching { test }
    }
}

impl<P: Fn(&SaveableEntity) -> bool> EntityFilter for Matching<P> {
    /// Whether the function returns `true` on the entities that hold what
    /// `entity` holds: there is none of them on which it returns `false`.
    open spec fn admits(&self, entity: EntityView) -> bool {
        !exists|held: SaveableEntity| #[trigger]
            self.function().ensures((&held,), false) && held@ == entity
    }

    fn matches(&self, entity: &SaveableEntity) -> (picked: bool) {
        proof {
            use_type_invariant(self);
        }
        let picked = (self.test)(entity);
        proof {
            if picked {
                assert forall|held: SaveableEntity| #[trigger]
                    self.function().ensures((&held,), false) implies held@ != entity@ by {
                    if held@ == entity@ {
                        assert(self.function().ensures((entity,), picked));
                    }
                }
            } else {
                assert(self.function().ensures((entity,), false) && (*entity)@ == entity@);
            }
        }
        picked
    }
}

/// A filter on live entities, as a despawn mode holds it.
pub struct Filter<F = ()> {
    pub filter: F,
}

impl Filter {
    /// The filter that tests entities with `filter`.
    pub fn new<F>(filter: F) -> (made: Filter<F>)
        ensures
            made.filter == filter,
    {
        Filter { filter }
    }
}

} // verus!
