//! A Conway's Game of Life engine on a fixed-size toroidal grid.
//!
//! The engine keeps, for every cell, a cached count of its live neighbors and
//! a decaying trail intensity for recently dead cells. The central invariant,
//! proved for every mutation path, is that each cached count always equals the
//! live-neighbor tally recomputed from scratch.

pub mod display;
pub mod game_of_life;
pub mod grid;
pub mod laws;
pub mod option_bar;
mod rng;
pub mod sim_state;
pub mod user_input;
