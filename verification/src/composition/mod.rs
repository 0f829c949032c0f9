//! Composition algebra: sequence and grid predicates built from a binary
//! equality unit, without further training.

pub mod grid;
pub mod sequence;
pub mod traits;
pub mod walk;
