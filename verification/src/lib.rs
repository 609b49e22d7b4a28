//! Core of a cellular sandbox board: a double-buffered, multi-attribute grid
//! with a per-tick diffusion update, bit-packed per-cell metadata, a
//! deterministic procedural maze generator, and a precomputed classification
//! table.
//!
//! Scalar cell attributes are stored as fixed-point integers: a value `v`
//! stands for the real number `v / SCALE`.  Callers that work in floating
//! point convert at the boundary.

use vstd::prelude::*;

pub mod alpha;
pub mod bits;
pub mod board;
pub mod classify;
pub mod extract;
pub mod maze;
pub mod point;
pub mod rng;
pub mod swap_buffer;
pub mod update;
pub mod timer;
pub mod view;

verus! {

/// Denominator of the fixed-point representation used for all scalar cell
/// attributes (stability, reactivity, energy, gamma, omega, conductivity)
/// and for the tick length `dt`.
pub const SCALE: i64 = 1024;

} // verus!
