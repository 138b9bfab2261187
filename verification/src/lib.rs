//! Owner-scoped role-based access control.
//!
//! Three kinds of named entity (roles, permissions, groups) live in per-owner
//! namespaces, four many-to-many relations connect them, and a resolver
//! computes the permissions a user or group effectively holds by following
//! direct role assignments and group memberships.

pub mod entity;
pub mod key;
pub mod laws;
pub mod resolve;
pub mod service;
pub mod store;
pub mod weights;

pub use entity::{Entity, EntityError, EntityId, EntityView, OwnerId};
pub use entity::{Permission2Role, Role2Group, Role2User, User2Group};
pub use key::Tag;
pub use service::Rbac;
pub use weights::WeightInfo;
