//! Spatially explicit multi-species population dynamics on a finite grid.
//!
//! A grid of cells, each empty or holding an animal of one species, is
//! advanced tick by tick by one of two stochastic cellular-automaton rule
//! sets: a single-phase rule, and a three-phase rule of feeding, reproduction
//! and movement. Every tick reads the previous grid and builds the next.
//!
//! Probabilities are held as millionths, so that every rule is integer
//! arithmetic. The random draws come from a seeded PCG generator that each
//! model owns; the contracts say what holds of a tick whatever is drawn.

pub mod util;
pub mod chance;
pub mod random;
pub mod grid;
pub mod registry;
pub mod params;
pub mod analytics;
pub mod model;
pub mod simple_model;
pub mod movement;
pub mod pppe_model;
pub mod stats;
