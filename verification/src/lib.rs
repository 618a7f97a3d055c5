//! Conway's Game of Life on a fixed-size toroidal grid.
//!
//! The grid wraps around at its edges: every pair of signed integer
//! coordinates addresses some cell, by reducing each coordinate with a
//! non-negative (Euclidean) remainder. A simulation engine owns two such
//! grids as a double buffer and advances one generation per call, so that
//! every cell's next state is computed from the previous generation only.

pub mod engine;
pub mod grid;
