//! The catalogue of types of an entity-relation-attribute database: entity, relation, role
//! and attribute types, their single-inheritance hierarchy, what owns, plays and relates
//! what, and the annotations that constrain them.
//!
//! The schema lives in a key-value snapshot. `encoding` says how identities, edges,
//! properties and labels become keys; `snapshot` says what a snapshot offers and holds one in
//! memory; `type_` writes the schema, reads it back and caches it; `thing` holds the values
//! of attributes.
//!
//! What stays true of a schema is stated and proved in `type_::consistency` (labels, roots
//! and the place of every type in the hierarchy), `type_::symmetry` (every edge in both
//! directions), `type_::existence` (whatever is named exists) and `type_::hierarchy` (no
//! type above or below itself).

pub mod encoding;
pub mod error;
pub mod snapshot;
pub mod thing;
pub mod type_;
