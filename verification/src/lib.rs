//! A gravitational N-body simulation core.
//!
//! Scalars (masses, coordinates, velocities, the gravitational constant and
//! the time step) are fixed-point numbers: an `i128` counts units of
//! `1 / SCALE`. All arithmetic is exact integer arithmetic, so every public
//! operation carries a contract that pins its result down to the unit.

pub mod fixed;
pub mod body;
pub mod sim;
