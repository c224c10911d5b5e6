//! The schema of an authorization-policy engine: namespaced declarations of
//! entity types and actions, merged into one hierarchy whose member-of
//! relation is transitively closed and free of undeclared references.
pub mod closure;
pub mod entities;
pub mod json;
pub mod laws;
pub mod names;
pub mod query;
pub mod schema;
pub mod types;
