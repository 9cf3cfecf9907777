//! The constants of the simulation, as fixed-point scalars, and the limits
//! within which every quantity of a flock can be represented.

use vstd::prelude::*;

verus! {

/// Width of the sprite of one agent.
pub const BOID_SIZE_X: i64 = 21_000_000;

/// Height of the sprite of one agent.
pub const BOID_SIZE_Y: i64 = 35_000_000;

/// The greatest speed of an agent, in units per second.
pub const MAX_SPEED: i64 = 200_000_000;

/// The greatest length of one steering force.
pub const MAX_FORCE: i64 = 50_000;

/// Agents closer than this are neighbours for cohesion and alignment.
pub const FLOCK_NEIGHBORHOOD_ZONE: i64 = 360_000_000;

/// Agents, and the repulsor, closer than this push an agent away.
pub const BOID_SEPARATION_ZONE: i64 = 65_000_000;

/// Weight of the cohesion force: 1.
pub const COHESION_WEIGHT: i64 = 1_000_000;

/// Weight of the separation force: 1.5.
pub const SEPARATE_WEIGHT: i64 = 1_500_000;

/// Weight of the separation from the repulsor: 4.
pub const CURSOR_SEPARATE_WEIGHT: i64 = 4_000_000;

/// Weight of the alignment force: 1.
pub const ALIGN_WEIGHT: i64 = 1_000_000;

/// The colour that the agents of a new flock have, as red, green, blue and
/// opacity, one byte each.
pub const BOID_COLOR: u32 = 0x79e0_95ff;

/// The greatest coordinate of a position, and the greatest side of an arena:
/// 2^40 millionths, a little over a million units.
pub const POSITION_MAX: i64 = 0x100_0000_0000;

/// The greatest component of a velocity or an acceleration that a flock
/// accepts: 2^33 millionths.
pub const RATE_MAX: i64 = 0x2_0000_0000;

/// The longest time step: 2^40 millionths of a second.
pub const DELTA_TIME_MAX: i64 = 0x100_0000_0000;

/// The greatest component of the weighted sum of the four steering forces.
pub const FLOCK_FORCE_MAX: i64 = 375_000;

} // verus!
