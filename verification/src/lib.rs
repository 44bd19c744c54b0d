//! A deterministic, seeded forest-ecosystem simulator.
//!
//! Trees, lumberjacks ("jacks") and bears live on a rectangular grid whose
//! cells are packed `u16` values with three bitfields (tree age, jack level,
//! bear presence). A `Forest` owns the grid and a deterministic
//! pseudo-random generator, and advances one simulated month per call to
//! `update`.

pub mod cell;
pub mod config;
pub mod forest;
pub mod grid;
pub mod laws;
pub mod model;
pub mod random;
pub mod tree;
