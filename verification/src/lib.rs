//! Atomic neural transistors: small, composable computation units.
//!
//! A unit is a short register program for a ternary-signal machine. The text
//! of a program is assembled into a listing, the listing is checked against
//! the static rules of the instruction set, and the checked program is run on
//! signal or integer lanes. Composition helpers build sequence and grid
//! predicates from a binary equality unit.

pub mod composition;
pub mod config;
pub mod machine;
pub mod pretrained;
pub mod signal;

pub use config::AtomicConfig;
pub use machine::atomic_neural_transistor::AtomicNeuralTransistor;
pub use machine::error::{AntError, AssemblyError, AssemblyErrorKind};
pub use machine::program::{assemble, AssembledProgram};
pub use signal::{Polarity, TernarySignal};
pub use composition::grid::{
    find_all_objects, find_connected_component, grid_count_value, grid_find_value, grids_equal,
    Region,
};
pub use composition::sequence::{
    all_unique, contains, count_occurrences, find_positions, has_duplicate, is_marked_equal,
};
pub use composition::traits::{EqualityChecker, PerfectEquality};
pub use pretrained::{model_path, models_dir, Pretrained};
