//! A flock of steering agents in a square arena.
//!
//! Each agent is pulled toward the agents around it, pushed away from those
//! that crowd it, turned the way they move, and driven off by one point that
//! the caller moves about. A time step turns these forces into new
//! velocities and positions; an agent that leaves the arena on one side
//! comes back on the other.
//!
//! All numbers are fixed-point: an `i64` that counts millionths. The result
//! of every function is stated as integer mathematics, rounding included,
//! and proved with Verus, together with the absence of overflow. So a flock
//! takes the same course on every machine, no agent is ever faster than
//! `MAX_SPEED`, and no steering force is ever longer than `MAX_FORCE`.
//!
//! - `fixed`: scalars, division rounded toward zero, the integer square root.
//! - `vector2`: vectors of the plane and their lengths.
//! - `params`: the constants of the simulation.
//! - `boid`: one agent, and how it steers toward a point.
//! - `steering`: the four steering rules and their weighted sum.
//! - `motion`: the time step, and what holds after any number of them.
//! - `flock`: the flock itself.

pub mod boid;
pub mod fixed;
pub mod flock;
mod forces;
pub mod motion;
pub mod params;
pub mod steering;
pub mod vector2;
