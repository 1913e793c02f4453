//! The errors of applying a snapshot.

use crate::entity::MapEntitiesError;
use vstd::prelude::*;

verus! {

/// Why a snapshot could not be applied. Whatever was applied before the error
/// stays in the world.
#[derive(Debug, PartialEq, Eq)]
pub enum SaveableError {
    /// The type registry has no registration under this name.
    UnregisteredType { name: String },
    /// The type is registered, but not as a resource.
    UnregisteredResource { name: String },
    /// The type is registered, but not as a component.
    UnregisteredComponent { name: String },
    /// An entity reference inside a value could not be rewritten.
    MapEntitiesError(MapEntitiesError),
}

/// The mathematical content of a [`SaveableError`].
pub enum ErrorView {
    UnregisteredType { name: Seq<char> },
    UnregisteredResource { name: Seq<char> },
    UnregisteredComponent { name: Seq<char> },
    MapEntitiesError(MapEntitiesError),
}

impl View for SaveableError {
    type V = ErrorView;

    open spec fn view(&self) -> ErrorView {
        match self {
            SaveableError::UnregisteredType { name } => ErrorView::UnregisteredType { name: name@ },
            SaveableError::UnregisteredResource { name } => ErrorView::UnregisteredResource {
                name: name@,
            },
            SaveableError::UnregisteredComponent { name } => ErrorView::UnregisteredComponent {
                name: name@,
            },
            SaveableError::MapEntitiesError(e) => ErrorView::MapEntitiesError(*e),
        }
    }
}

/// The error of a result, if it has one.
pub open spec fn error_of(res: Result<(), SaveableError>) -> Option<ErrorView> {
    match res {
        Ok(_) => None,
        Err(e) => Some(e@),
    }
}

} // verus!
