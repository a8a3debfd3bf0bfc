//! A three-dimensional cellular automaton: a dense lattice of cells stepped
//! by a configurable survival/birth rule, with stagnation detection that
//! re-seeds the lattice when the liveness pattern stops changing.

pub mod block;
pub mod grid;
pub mod rule;

pub use block::Block;
pub use block::Pos;
pub use block::Rgb;
pub use grid::Grid;
pub use grid::GridError;
pub use rule::Rule;
pub use rule::SeedPolicy;
