//! Core of a particle-life simulation: point particles of a few fixed types
//! move in a square arena under asymmetric, type-pair-dependent
//! attraction/repulsion rules.
//!
//! All quantities are fixed-point integers: positions and velocities are kept
//! in thousandths of a world unit, interaction coefficients and the force
//! scale in thousandths of one. The modules are
//! - [`config`]: the simulation constants and fixed-point conventions,
//! - [`math`]: truncating fixed-point scaling and an integer square root,
//! - [`rng`]: the trusted boundary to the `rand` crate,
//! - [`kernel`]: the pairwise force profile,
//! - [`ruleset`]: particle types and the interaction-coefficient matrix,
//! - [`store`]: the particle records and their spawning,
//! - [`sim`]: the per-tick force accumulation, integration and reflection,
//! - [`laws`]: proofs of the global properties — boundedness under
//!   reflection, determinism, deceleration of free motion.

pub mod config;
pub mod kernel;
pub mod laws;
pub mod math;
pub mod rng;
pub mod ruleset;
pub mod sim;
pub mod store;
