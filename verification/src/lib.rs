//! Snapshots of an entity-component world and their reconciliation with a
//! live world.
//!
//! A [`World`] holds a [`Scene`] of live entities and resources, the registry
//! of the types that values can have, the registry of the types that may be
//! saved, and the rollbacks taken so far. Components and resources are held
//! as serialized values under the names of their types, so that the set of
//! types stays open.
//!
//! [`Snapshot`] and [`Rollback`] capture the state of a world ([`capture`]).
//! An [`Applier`] configures how one of them is applied ([`apply`]): with an
//! entity map from captured to live entities, a [`DespawnMode`] that says
//! which live entities go, and a [`MappingMode`] that says where the
//! entities without an entry in the map go ([`policy`]).
//!
//! Every function states what it returns and changes over the mathematical
//! views of these types. What holds of capturing and applying in general is
//! stated and proved in [`laws`]; [`lemmas`] holds what those proofs rest
//! on.

pub mod apply;
pub mod capture;
pub mod entity;
pub mod error;
pub mod filter;
pub mod laws;
pub mod lemmas;
pub mod policy;
pub mod references;
pub mod registry;
pub mod rollbacks;
pub mod snapshot;
pub mod value;
pub mod world;

pub use apply::{applicable, apply_raw, Outcome};
pub use capture::CaptureRule;
pub use entity::{EntityView, MapEntities, MapEntitiesError, MapWith, SaveableEntity};
pub use error::{ErrorView, SaveableError};
pub use filter::{EntityFilter, Filter, Matching, With, Without};
pub use policy::{DespawnMode, MappingMode};
pub use references::EntityReferences;
pub use registry::{Saveable, SaveableRegistry, SaveableView, TypeRegistration, TypeRegistry};
pub use rollbacks::{Rollbacks, RollbacksView};
pub use snapshot::{Applier, FullSnapshotView, RawSnapshot, Rollback, Snapshot, SnapshotView};
pub use value::{TypedValue, ValueView};
pub use world::{Scene, SceneView, World};
