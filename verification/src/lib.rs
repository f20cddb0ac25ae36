//! Incremental dependency tracking for a railway infrastructure model.
//!
//! The crate keeps two derived views consistent with batched edits of the
//! canonical object set: a forward/reverse index from objects to the track
//! sections they reference, and denormalized per-kind layer tables. Edits are
//! applied incrementally, and the incremental maintenance is proved to agree
//! with a full recomputation.

pub mod applier;
pub mod auto_fixes;
pub mod duration;
pub mod errors;
pub mod geo_json;
pub mod infra;
pub mod infra_cache;
pub mod layer;
pub mod operation;
pub mod railjson;
pub mod schema;
pub mod speed_section_layer;
pub mod store;
pub mod strmap;
pub mod study;
pub mod switch_layer;

pub use schema::ObjectType;
