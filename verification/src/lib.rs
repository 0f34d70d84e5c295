//! Conway's Game of Life on a toroidal grid.
//!
//! The engine keeps only the set of live cells. A [`World`] is a grid size
//! together with that set; [`World::tick`] and [`World::next_generation`]
//! advance it by one generation, and [`World::alive_positions`] reads the live
//! cells back.
//!
//! Coordinates are 1-based: the canonical cells of a `width` by `height` grid
//! are `[1, width] x [1, height]`, and every neighbour lookup wraps around the
//! edges into that range.
//!
//! Every function carries a contract over a mathematical model: a cell is a
//! pair of integers, the live cells are a `Set` of such pairs, and the next
//! generation is the set [`rules::next_alive`].
//!
//! - [`position`]: the coordinate type.
//! - [`torus`]: wrapping and the eight neighbours, as arithmetic.
//! - [`rules`]: live-neighbour counts, survival and birth, as sets.
//! - [`cell_set`]: the set of positions that a world stores.
//! - [`world`]: the simulation state and its step.
//! - [`patterns`]: the glider and the pulsar.
//! - [`laws`]: what follows for every grid, proved.

pub mod cell_set;
pub mod laws;
pub mod patterns;
pub mod position;
pub mod rules;
pub mod torus;
pub mod world;

pub use patterns::{glider_pattern, pulsar_pattern, try_glider_pattern, try_pulsar_pattern};
pub use position::Position;
pub use world::World;
