//! The ternary-signal machine: listings, their static rules, and the unit
//! that runs a checked program.

pub mod atomic_neural_transistor;
pub mod engine;
pub mod error;
pub mod laws;
pub mod listing;
pub mod program;
pub mod rules;
pub mod text;
