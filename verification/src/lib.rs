//! A composer for runtimes assembled from independently written modules, and
//! a builder for the storage such a runtime starts from.
//!
//! A runtime is described by an ordered list of module descriptors and a
//! table that binds every type parameter those modules leave open. Composing
//! the two validates the description and yields a composite runtime with a
//! unified call and event surface and one storage partition per module. A
//! genesis configuration is then materialised into a genesis image, which an
//! externalities context wraps for execution.
pub mod binding;
pub mod descriptor;
pub mod externalities;
pub mod genesis;
pub mod keys;
pub mod mock;
pub mod runtime;
pub mod schema;

pub use binding::{Binding, CompositeKind, TypeRef};
pub use descriptor::{Capabilities, ModuleDescriptor, ModuleId, ParamId, ParamSpec};
pub use externalities::ExternalitiesContext;
pub use genesis::{GenesisConfig, GenesisDefect, GenesisError, GenesisImage, ModuleGenesis};
pub use keys::StorageEntry;
pub use mock::new_test_ext;
pub use runtime::{Call, CompositeRuntime, Event, Keying};
pub use schema::CompositionError;
