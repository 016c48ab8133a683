pub mod geometry;
pub mod tile;
pub mod mapgen;
pub mod object;
mod rng;
