//! Conway's Game of Life (B3/S23) on a flat, double-buffered grid.

pub mod bands;
pub mod grid;
pub mod life;
mod random;
pub mod session;
pub mod symmetry;
