//! Declarative registry of package environments and the apps bound to them.
//!
//! Environments and apps are declared in collections, merged without
//! losing information, and reconciled against what was last built on disk.
//! The library decides; reading, writing and building are left to its caller.

pub mod context;
pub mod defaults;
pub mod errors;
pub mod merge;
pub mod models;
pub mod store;
pub mod table;
pub mod text;

pub use context::VivaContext;
pub use defaults::default_channels;
pub use errors::VivaError;
pub use models::environment::VivaEnvSpec;
