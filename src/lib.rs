//! A catalog of emulator cores: the rows of the entity store, and the
//! composite views that recombine them (a core with its team, its latest
//! release, that release's platform and the core's systems).

pub mod cores;
pub mod identity;
pub mod model;
pub mod store;
pub mod view;

pub use cores::{CompositeRow, ConstraintKind, StorageError};
pub use identity::IdOrSlug;
pub use model::{Core, CoreRelease, CoreSystems, Platform, System, Team};
pub use store::Store;
pub use view::{build_predicate, group_systems, latest_release_of, Clause};
