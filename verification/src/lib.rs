//! A predator/prey cellular automaton on a toroidal grid.
//!
//! Two grids of equal shape take turns: one generation is read while the
//! next one is built in the other grid, and then the two change roles.

pub mod cell;
pub mod random;
pub mod rules;
pub mod simulation;
pub mod world;

pub use cell::{Cell, CellType};
pub use simulation::Simulation;
pub use world::{SeedError, World};
