//! Deterministic fixed-point core of a flocking ("boids") simulation.
//!
//! The library models agents ("boids") moving in three-dimensional space.
//! Each simulation tick rebuilds a uniform spatial bucket grid from the
//! agents' positions, computes a steering force for every agent from its
//! grid neighbourhood (separation, alignment, cohesion, a view-cone filter,
//! flock-centre attraction and a predator/prey rule), and integrates the
//! forces into new, speed-bounded velocities.
//!
//! All geometry is carried out on fixed-point integer vectors, so every
//! function is an exact mathematical function of its inputs: the whole
//! pipeline is deterministic and free of NaN or infinity hazards.  The
//! surrounding application chooses the fixed-point scale (for example
//! 100 units per metre) and converts at its own boundary.

use vstd::prelude::*;

pub mod math;
pub mod vec3;
pub mod config;
pub mod agent;
pub mod grid;
pub mod forces;
pub mod integrate;
pub mod sim;

verus! {

/// Largest magnitude allowed for a position or velocity component
/// (2^22 fixed-point units).  Keeps every intermediate product of the
/// force computation inside 128-bit arithmetic.
pub const COORD_LIMIT: i64 = 4194304;

/// Fixed-point representation of the cosine value 1.0 (2^14).  A view-cone
/// limit is a cosine in `[-COS_ONE, COS_ONE]`, standing for `[pi, 0]`.
pub const COS_ONE: i64 = 16384;

/// Magnitude given to intermediate "normalized" vectors when per-neighbour
/// contributions are accumulated (2^10).
pub const UNIT_LEN: i64 = 1024;

/// Most agents a grid may hold (2^32); bounds the force accumulators.
pub const MAX_AGENTS: u64 = 4294967296;

/// Longest tick accepted by the integrator, in milliseconds.
pub const DT_LIMIT: u64 = 60000;

/// Milliseconds per second; velocities are in units per second.
pub const MILLIS_PER_SECOND: u64 = 1000;

/// Largest force-component magnitude the pipeline can produce (2^55):
/// at most `MAX_AGENTS` predator-avoidance pushes plus the bounded
/// steering terms, each limited by `COORD_LIMIT`.
pub const FORCE_LIMIT: i64 = 36028797018963968;

} // verus!
