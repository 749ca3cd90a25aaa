//! Conway's Game of Life on a toroidal grid whose cells are packed into a
//! `fixedbitset::FixedBitSet`.
//!
//! * [`grid`] is the mathematical model: a width, a height and a row-major
//!   sequence of booleans, with the transition rule stated over it.
//! * [`packing`] describes the packed form in which the cells are read.
//! * [`bitset`] states what the library relies on from `fixedbitset`.
//! * [`universe`] is the executable automaton.

pub mod bitset;
pub mod grid;
pub mod packing;
pub mod universe;

pub use grid::Grid;
pub use universe::Universe;
