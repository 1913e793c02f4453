//! The registry of types and their capabilities, and the registry of the
//! types that may be saved.

use crate::entity::MapEntities;
use vstd::prelude::*;

verus! {

/// What is known of one type: its name and what its values can be used for.
pub struct TypeRegistration {
    /// The name under which values of the type are saved.
    pub name: String,
    /// Whether a value of the type can be a resource of the world.
    pub resource: bool,
    /// Whether a value of the type can be a component of an entity.
    pub component: bool,
    /// How entity references inside a value of the type are rewritten, if it has any.
    pub map_entities: Option<Box<dyn MapEntities>>,
}

impl TypeRegistration {
    /// A registration without any capability.
    pub fn new(name: &str) -> (reg: TypeRegistration)
        ensures
            reg.name@ == name@,
            !reg.resource,
            !reg.component,
            reg.map_entities is None,
    {
        TypeRegistration {
            name: name.to_owned(),
            resource: false,
            component: false,
            map_entities: None,
        }
    }

    /// A registration of a type whose values are components.
    pub fn component(name: &str) -> (reg: TypeRegistration)
        ensures
            reg.name@ == name@,
            !reg.resource,
            reg.component,
            reg.map_entities is None,
    {
        TypeRegistration {
            name: name.to_owned(),
            resource: false,
            component: true,
            map_entities: None,
        }
    }

    /// A registration of a type whose values are resources.
    pub fn resource(name: &str) -> (reg: TypeRegistration)
        ensures
            reg.name@ == name@,
            reg.resource,
            !reg.component,
            reg.map_entities is None,
    {
        TypeRegistration {
            name: name.to_owned(),
            resource: true,
            component: false,
            map_entities: None,
        }
    }

    /// The name of the type.
    pub fn name(&self) -> (name: &String)
        ensures
            name == self.name,
    {
        &self.name
    }
}

/// The first index at or after `from` of a registration under `name`.
pub open spec fn find_registration_from(
    registrations: Seq<TypeRegistration>,
    name: Seq<char>,
    from: int,
) -> Option<int>
    decreases registrations.len() - from,
{
    if from < 0 || from >= registrations.len() {
        None
    } else if registrations[from].name@ == name {
        Some(from)
    } else {
        find_registration_from(registrations, name, from + 1)
    }
}

/// The registration under `name`, if there is one.
pub open spec fn lookup(registrations: Seq<TypeRegistration>, name: Seq<char>) -> Option<
    TypeRegistration,
> {
    match find_registration_from(registrations, name, 0) {
        Some(i) => Some(registrations[i]),
        None => None,
    }
}

/// The index that `find_registration_from` returns is in range and holds `name`.
pub proof fn lemma_find_registration_from(
    registrations: Seq<TypeRegistration>,
    name: Seq<char>,
    from: int,
)
    requires
        0 <= from,
    ensures
        match find_registration_from(registrations, name, from) {
            Some(i) => from <= i < registrations.len() && registrations[i].name@ == name
                && forall|j: int| from <= j < i ==> (#[trigger] registrations[j]).name@ != name,
            None => forall|j: int|
                from <= j < registrations.len() ==> (#[trigger] registrations[j]).name@ != name,
        },
    decreases registrations.len() - from,
{
    if from < registrations.len() && registrations[from].name@ != name {
        lemma_find_registration_from(registrations, name, from + 1);
    }
}

/// The types that the world knows, by name. A name has at most one
/// registration that counts: the first.
pub struct TypeRegistry {
    registrations: Vec<TypeRegistration>,
}

impl View for TypeRegistry {
    type V = Seq<TypeRegistration>;

    closed spec fn view(&self) -> Seq<TypeRegistration> {
        self.registrations@
    }
}

impl TypeRegistry {
    /// The registry without registrations.
    pub fn new() -> (registry: TypeRegistry)
        ensures
            registry@ == Seq::<TypeRegistration>::empty(),
    {
        TypeRegistry { registrations: Vec::new() }
    }

    fn position(&self, name: &String) -> (found: Option<usize>)
        ensures
            match found {
                Some(i) => find_registration_from(self@, name@, 0) == Some(i as int) && i
                    < self@.len(),
                None => find_registration_from(self@, name@, 0) is None,
            },
    {
        let mut i: usize = 0;
        while i < self.registrations.len()
            invariant
                i <= self.registrations.len(),
                find_registration_from(self@, name@, i as int) == find_registration_from(
                    self@,
                    name@,
                    0,
                ),
            decreases self.registrations.len() - i,
        {
            if self.registrations[i].name == *name {
                return Some(i);
            }
            i += 1;
        }
        None
    }

    /// Registers a type: in place of the registration under the same name,
    /// or after all others where the name is new.
    pub fn register(&mut self, registration: TypeRegistration)
        ensures
            final(self)@ == match find_registration_from(old(self)@, registration.name@, 0) {
                Some(i) => old(self)@.update(i, registration),
                None => old(self)@.push(registration),
            },
            lookup(final(self)@, registration.name@) == Some(registration),
    {
        let found = self.position(&registration.name);
        proof {
            lemma_find_registration_from(self@, registration.name@, 0);
        }
        let ghost before = self@;
        let ghost name = registration.name@;
        match found {
            Some(i) => {
                self.registrations.set(i, registration);
                assert(self@[i as int].name@ == name);
            },
            None => {
                self.registrations.push(registration);
                assert(self@[before.len() as int].name@ == name);
            },
        }
        proof {
            lemma_find_registration_from(self@, name, 0);
            assert forall|j: int| 0 <= j < before.len() && before[j].name@ != name implies (
            #[trigger] self@[j]).name@ != name by {
                assert(self@[j] == before[j]);
            }
        }
    }

    /// The registration under `name`, if there is one.
    pub fn get_with_name(&self, name: &String) -> (found: Option<&TypeRegistration>)
        ensures
            match found {
                Some(reg) => lookup(self@, name@) == Some(*reg),
                None => lookup(self@, name@) is None,
            },
    {
        match self.position(name) {
            Some(i) => Some(&self.registrations[i]),
            None => None,
        }
    }

    /// The number of registrations.
    pub fn len(&self) -> (len: usize)
        ensures
            len == self@.len(),
    {
        self.registrations.len()
    }

    /// The registration at `index`, in the order of registering.
    pub fn get(&self, index: usize) -> (reg: &TypeRegistration)
        requires
            index < self@.len(),
        ensures
            *reg == self@[index as int],
    {
        &self.registrations[index]
    }
}

/// One type that may be saved, and whether rollbacks include it.
pub struct Saveable {
    pub name: String,
    pub rollback: bool,
}

/// The mathematical content of a [`Saveable`].
pub struct SaveableView {
    pub name: Seq<char>,
    pub rollback: bool,
}

impl View for Saveable {
    type V = SaveableView;

    open spec fn view(&self) -> SaveableView {
        SaveableView { name: self.name@, rollback: self.rollback }
    }
}

impl DeepView for Saveable {
    type V = SaveableView;

    open spec fn deep_view(&self) -> SaveableView {
        self@
    }
}

/// The first index at or after `from` of the saveable type `name`.
pub open spec fn find_saveable_from(saveables: Seq<SaveableView>, name: Seq<char>, from: int)
    -> Option<int>
    decreases saveables.len() - from,
{
    if from < 0 || from >= saveables.len() {
        None
    } else if saveables[from].name == name {
        Some(from)
    } else {
        find_saveable_from(saveables, name, from + 1)
    }
}

/// Whether the type `name` may be saved.
pub open spec fn is_saveable(saveables: Seq<SaveableView>, name: Seq<char>) -> bool {
    find_saveable_from(saveables, name, 0) is Some
}

/// Whether the type `name` may be saved and rollbacks include it.
pub open spec fn can_rollback(saveables: Seq<SaveableView>, name: Seq<char>) -> bool {
    match find_saveable_from(saveables, name, 0) {
        Some(i) => saveables[i].rollback,
        None => false,
    }
}

/// No type is listed twice.
pub open spec fn distinct_saveables(saveables: Seq<SaveableView>) -> bool {
    forall|i: int, j: int|
        0 <= i < j < saveables.len() ==> #[trigger] saveables[i].name
            != #[trigger] saveables[j].name
}

/// What `find_saveable_from` returns: the first match at or after `from`, if any.
pub proof fn lemma_find_saveable_from(saveables: Seq<SaveableView>, name: Seq<char>, from: int)
    requires
        0 <= from,
    ensures
        match find_saveable_from(saveables, name, from) {
            Some(i) => from <= i < saveables.len() && saveables[i].name == name && forall|j: int|
                from <= j < i ==> (#[trigger] saveables[j]).name != name,
            None => forall|j: int|
                from <= j < saveables.len() ==> (#[trigger] saveables[j]).name != name,
        },
    decreases saveables.len() - from,
{
    if from < saveables.len() && saveables[from].name != name {
        lemma_find_saveable_from(saveables, name, from + 1);
    }
}

/// The types that may be saved, in the order in which they were registered,
/// each with a mark that says whether rollbacks include it.
pub struct SaveableRegistry {
    saveables: Vec<Saveable>,
}

impl View for SaveableRegistry {
    type V = Seq<SaveableView>;

    closed spec fn view(&self) -> Seq<SaveableView> {
        self.saveables.deep_view()
    }
}

impl SaveableRegistry {
    #[verifier::type_invariant]
    spec fn distinct(&self) -> bool {
        distinct_saveables(self.saveables.deep_view())
    }

    /// The registry without types.
    pub fn new() -> (registry: SaveableRegistry)
        ensures
            registry@ == Seq::<SaveableView>::empty(),
    {
        let registry = SaveableRegistry { saveables: Vec::new() };
        assert(registry.saveables.deep_view() =~= Seq::<SaveableView>::empty());
        registry
    }

    fn position(&self, name: &String) -> (found: Option<usize>)
        ensures
            match found {
                Some(i) => find_saveable_from(self@, name@, 0) == Some(i as int) && i
                    < self@.len(),
                None => find_saveable_from(self@, name@, 0) is None,
            },
    {
        let mut i: usize = 0;
        while i < self.saveables.len()
            invariant
                i <= self.saveables.len(),
                find_saveable_from(self@, name@, i as int) == find_saveable_from(self@, name@, 0),
            decreases self.saveables.len() - i,
        {
            if self.saveables[i].name == *name {
                return Some(i);
            }
            i += 1;
        }
        None
    }

    /// Admits the type `name` for saving, rollbacks included. A type that is
    /// already admitted keeps its place and its mark.
    pub fn register(&mut self, name: &str)
        ensures
            final(self)@ == if is_saveable(old(self)@, name@) {
                old(self)@
            } else {
                old(self)@.push((SaveableView { name: name@, rollback: true }))
            },
    {
        let name = name.to_owned();
        let found = self.position(&name);
        if found.is_none() {
            proof {
                use_type_invariant(&*self);
                lemma_find_saveable_from(self@, name@, 0);
            }
            let ghost before = self.saveables.deep_view();
            let mut saveables: Vec<Saveable> = Vec::new();
            core::mem::swap(&mut self.saveables, &mut saveables);
            saveables.push(Saveable { name, rollback: true });
            assert(saveables.deep_view() =~= before.push(
                SaveableView { name: name@, rollback: true },
            ));
            self.saveables = saveables;
        }
    }

    /// Sets whether rollbacks include the type `name`. Nothing changes where
    /// the type is not admitted for saving.
    pub fn set_rollback(&mut self, name: &str, rollback: bool)
        ensures
            final(self)@ == match find_saveable_from(old(self)@, name@, 0) {
                Some(i) => old(self)@.update(i, (SaveableView { name: name@, rollback })),
                None => old(self)@,
            },
    {
        let name = name.to_owned();
        let found = self.position(&name);
        match found {
            Some(i) => {
                proof {
                    use_type_invariant(&*self);
                    lemma_find_saveable_from(self@, name@, 0);
                }
                let ghost before = self.saveables.deep_view();
                let mut saveables: Vec<Saveable> = Vec::new();
                core::mem::swap(&mut self.saveables, &mut saveables);
                saveables.set(i, Saveable { name, rollback });
                assert(saveables.deep_view() =~= before.update(
                    i as int,
                    SaveableView { name: name@, rollback },
                ));
                self.saveables = saveables;
            },
            None => {},
        }
    }

    /// Whether the type `name` may be saved.
    pub fn contains(&self, name: &String) -> (found: bool)
        ensures
            found == is_saveable(self@, name@),
    {
        self.position(name).is_some()
    }

    /// Whether the type `name` may be saved and rollbacks include it.
    pub fn can_rollback(&self, name: &String) -> (allowed: bool)
        ensures
            allowed == can_rollback(self@, name@),
    {
        match self.position(name) {
            Some(i) => self.saveables[i].rollback,
            None => false,
        }
    }

    /// The number of types, none of which is listed twice.
    pub fn len(&self) -> (len: usize)
        ensures
            len == self@.len(),
            distinct_saveables(self@),
    {
        proof {
            use_type_invariant(self);
        }
        self.saveables.len()
    }

    /// The type at `index`, in the order of registering.
    pub fn get(&self, index: usize) -> (saveable: &Saveable)
        requires
            index < self@.len(),
        ensures
            saveable@ == self@[index as int],
    {
        &self.saveables[index]
    }
}

} // verus!
