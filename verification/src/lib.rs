//! Truth-table generation for a list of named boolean propositions.
//!
//! Given an ordered list of proposition names, the library deduplicates the
//! names (keeping first occurrences), enumerates all `2^N` true/false
//! assignments in canonical truth-table order, and renders them as a table.

pub mod generator;
pub mod laws;
pub mod render;
pub mod truth_value;

pub use generator::{generate, OverflowError, TruthTable, MAX_PROPOSITIONS};
pub use render::render;
pub use truth_value::TruthValue;
