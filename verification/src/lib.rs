//! Dependency groups of a project manifest: which groups an export emits, and
//! how the manifest follows what is installed.

pub mod dependency;
pub mod error;
pub mod filter;
pub mod manifest;
pub mod names;
pub mod ops;
pub mod reconcile;
pub mod record;
pub mod registry;

pub use crate::dependency::{Dependency, Package};
pub use crate::error::Error;
pub use crate::filter::FilterRequest;
pub use crate::manifest::{Group, Manifest, REQUIRED_GROUP};
pub use crate::registry::GroupRegistry;
