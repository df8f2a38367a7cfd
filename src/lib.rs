//! Semantic subtyping for JSON-Schema-like types: schemas are lowered into
//! semantic types (a mask of fully included categories plus literal sets and
//! ternary decision diagrams over interned object and array shapes), combined with
//! exact set operations, tested for emptiness and subtyping, and turned back into
//! example values or named schemas.

pub mod api;
pub mod bdd;
pub mod codec;
pub mod context;
pub mod laws;
pub mod literal;
pub mod lower;
pub mod materialize;
pub mod open_api;
pub mod schema;
pub mod semtype;
pub mod text;
pub mod to_schema;
