//! Conway's Game of Life (B3/S23) over a fixed-size grid of packed colour
//! values, with double buffering and a clamped edge policy: positions
//! outside the grid do not exist and never count as live neighbours.
//!
//! A cell value of `0` is dead; any other value is alive and is also the
//! colour shown for that cell. Survivors keep their value; newborn cells
//! take the birth colour.
//!
//! - `rules`: the per-cell rule on liveness and the colouring step.
//! - `grid`: the row-major grid and the neighbour counter.
//! - `engine`: the sweep that computes a whole generation.
//! - `sim`: the simulation state owning both buffers.
//! - `counting`: finite sums used by the counting arguments.
//! - `laws`: properties of the sweep proved over the model.

pub mod rules;
pub mod grid;
pub mod engine;
pub mod sim;
pub mod counting;
pub mod laws;
