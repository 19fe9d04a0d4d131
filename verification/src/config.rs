use vstd::prelude::*;

verus! {

/// Fixed-point scale: one unit of a dimensionless quantity (an interaction
/// coefficient, a normalized distance, a damping factor) is `SCALE`.
pub const SCALE: i64 = 1000;

/// Inner-repulsion threshold of the force profile, in `SCALE` units
/// (three tenths of the cutoff radius).
pub const BETA: i64 = 300;

/// Number of particle types; also the dimension of the interaction matrix.
pub const NUM_PARTICLE_TYPES: usize = 3;

/// Default size of the spawned population.
pub const NUM_PARTICLES: usize = 500;

/// Visual diameter of one particle, in thousandths of a world unit.
/// The core never reads it; a display layer may.
pub const PARTICLE_SIZE: i64 = 10_000;

/// Gain applied to every pairwise force.
pub const FORCE_MULTIPLIER: i64 = 50;

/// Interaction cutoff radius, in thousandths of a world unit: beyond this
/// distance two particles exert no force on each other.
pub const DISTANCE_MAX: i64 = 100_000;

/// Time over which a free particle's speed halves, in milliseconds.
pub const FRICTION_HALF_LIFE_MS: u64 = 20;

/// Half the side of the square arena, in thousandths of a world unit;
/// positions are reflected back into `[-HALF_EXTENT, HALF_EXTENT]`.
pub const HALF_EXTENT: i64 = 450_000;

/// Largest coordinate magnitude handed out at spawn time, in thousandths of
/// a world unit.
pub const SPAWN_EXTENT: i64 = 400_000;

/// Cap on the magnitude of each velocity component, in thousandths of a
/// world unit per second; the velocity update saturates here so that the
/// fixed-point arithmetic never overflows.
pub const VEL_CAP: i64 = 1_000_000_000_000_000;

/// Largest tick length accepted by the stepping functions, in milliseconds.
pub const MAX_DT_MS: u64 = 1000;

/// Largest population the stepping functions accept; bounds the accumulated
/// per-tick velocity change.
pub const MAX_PARTICLES: usize = 10_000;

/// Milliseconds per second, for converting tick lengths to seconds.
pub const MILLIS_PER_SECOND: u64 = 1000;

/// Distance below which the universal short-range repulsion acts, in
/// thousandths of a world unit: `BETA * DISTANCE_MAX / SCALE`, so the
/// normalized distance is below `BETA` exactly when the raw distance is
/// below this.
pub const REPULSION_RANGE: i64 = 30_000;

/// Acceleration produced by a full-strength force at unit direction, in
/// thousandths of a world unit per second squared, divided by `SCALE`:
/// `FORCE_MULTIPLIER * DISTANCE_MAX / SCALE`, the cutoff radius in world
/// units times the force gain.
pub const ACCEL_FACTOR: i64 = 5_000;

/// Bound on the magnitude of the acceleration one pair contributes to one
/// axis: a full-strength force (`SCALE`) times `ACCEL_FACTOR`, since the
/// direction factor is at most one.
pub const PAIR_ACCEL_MAX: i64 = 5_000_000;

} // verus!
