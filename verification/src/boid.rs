//! One agent of the flock, and the way it steers toward a point.

use vstd::prelude::*;
use crate::fixed::{lemma_scale_bound, ONE};
use crate::params::{MAX_FORCE, MAX_SPEED, POSITION_MAX, RATE_MAX};
use crate::vector2::{
    lemma_component_bound, lemma_limited_norm, lemma_norm_squared_bound,
    lemma_with_length_accuracy, lemma_with_length_norm, IntVector, Vector2,
};

verus! {

/// A colour: red, green, blue and opacity, one byte each, from the highest
/// byte down. It is carried along and plays no part in the simulation.
#[derive(Clone, Copy, Debug, PartialEq, Eq, Structural)]
pub struct Color {
    pub rgba: u32,
}

impl Color {
    /// The colour written as eight hexadecimal digits.
    pub fn from_hex(hex: u32) -> (color: Color)
        ensures
            color.rgba == hex,
    {
        Color { rgba: hex }
    }
}

/// The mathematical state of one agent.
pub struct BoidModel {
    pub acceleration: IntVector,
    pub velocity: IntVector,
    pub position: IntVector,
    pub color: Color,
}

impl BoidModel {
    /// The agent's state can take part in a time step without leaving what
    /// the machine represents.
    pub open spec fn in_range(self) -> bool {
        &&& self.position.within(POSITION_MAX as int)
        &&& self.velocity.within(RATE_MAX as int)
        &&& self.acceleration.within(RATE_MAX as int)
    }
}

/// The velocity is of unit speed, up to the rounding of its components.
pub open spec fn unit_speed(velocity: IntVector) -> bool {
    (ONE - 2) * (ONE - 2) < velocity.norm_squared() <= ONE * ONE
}

/// The force that turns an agent with the given velocity toward
/// `direction`: the difference between full speed in that direction and the
/// velocity, no longer than `MAX_FORCE`.
pub open spec fn steer_toward(velocity: IntVector, direction: IntVector) -> IntVector {
    direction.normalized().scaled(MAX_SPEED as int).minus(velocity).limited(MAX_FORCE as int)
}

/// The force with which an agent seeks `target`. An agent that stands on
/// its target has no direction to take, and the force is zero.
pub open spec fn seek_force(boid: BoidModel, target: IntVector) -> IntVector {
    if target == boid.position {
        IntVector::zero()
    } else {
        steer_toward(boid.velocity, target.minus(boid.position))
    }
}

/// A steering force is never longer than `MAX_FORCE`.
pub proof fn lemma_steer_toward_bound(velocity: IntVector, direction: IntVector)
    ensures
        steer_toward(velocity, direction).norm_squared() <= MAX_FORCE * MAX_FORCE,
        steer_toward(velocity, direction).within(MAX_FORCE as int),
{
    lemma_limited_norm(
        direction.normalized().scaled(MAX_SPEED as int).minus(velocity),
        MAX_FORCE as int,
    );
}

/// The force of seeking a target is never longer than `MAX_FORCE`.
pub proof fn lemma_seek_force_bound(boid: BoidModel, target: IntVector)
    ensures
        seek_force(boid, target).norm_squared() <= MAX_FORCE * MAX_FORCE,
        seek_force(boid, target).within(MAX_FORCE as int),
{
    lemma_steer_toward_bound(boid.velocity, target.minus(boid.position));
}

/// A vector of at most unit length, scaled to full speed, has components of
/// at most `MAX_SPEED`.
pub proof fn lemma_full_speed_bound(unit: IntVector)
    requires
        unit.norm_squared() <= ONE * ONE,
    ensures
        unit.scaled(MAX_SPEED as int).within(MAX_SPEED as int),
{
    lemma_component_bound(unit, ONE as int);
    lemma_scale_bound(unit.x, MAX_SPEED as int, ONE as int, MAX_SPEED as int, MAX_SPEED as int);
    lemma_scale_bound(unit.y, MAX_SPEED as int, ONE as int, MAX_SPEED as int, MAX_SPEED as int);
}

/// Computes `steer_toward` for a velocity that a flock accepts and a
/// direction between two positions.
pub fn steer(velocity: &Vector2, direction: &Vector2) -> (force: Vector2)
    requires
        velocity@.within(RATE_MAX as int),
        direction@.within(2 * POSITION_MAX),
    ensures
        force@ == steer_toward(velocity@, direction@),
        force@.norm_squared() <= MAX_FORCE * MAX_FORCE,
        force@.within(MAX_FORCE as int),
{
    proof {
        lemma_norm_squared_bound(direction@, 2 * POSITION_MAX);
        let d = direction@.norm_squared();
        assert(d * ONE * ONE <= u128::MAX) by (nonlinear_arith)
            requires
                0 <= d <= 2 * ((2 * POSITION_MAX) * (2 * POSITION_MAX)),
        ;
    }
    let unit: Vector2 = direction.normalized();
    proof {
        lemma_full_speed_bound(unit@);
    }
    let desired: Vector2 = unit.scaled(MAX_SPEED);
    let change: Vector2 = desired.minus(velocity);
    proof {
        lemma_norm_squared_bound(change@, MAX_SPEED + RATE_MAX);
        let c = change@.norm_squared();
        assert(c * MAX_FORCE * MAX_FORCE <= u128::MAX) by (nonlinear_arith)
            requires
                0 <= c <= 2 * ((MAX_SPEED + RATE_MAX) * (MAX_SPEED + RATE_MAX)),
        ;
        lemma_steer_toward_bound(velocity@, direction@);
    }
    change.limited(MAX_FORCE)
}

/// One agent: where it is, how fast it moves, the acceleration gathered for
/// the step under way, and its colour.
#[derive(Clone, Copy, Debug)]
pub struct Boid {
    pub acceleration: Vector2,
    pub velocity: Vector2,
    pub position: Vector2,
    pub color: Color,
}

impl View for Boid {
    type V = BoidModel;

    open spec fn view(&self) -> BoidModel {
        BoidModel {
            acceleration: self.acceleration@,
            velocity: self.velocity@,
            position: self.position@,
            color: self.color,
        }
    }
}

/// The agents of a vector, as mathematics.
pub open spec fn models(boids: Seq<Boid>) -> Seq<BoidModel> {
    Seq::new(boids.len(), |j: int| boids[j]@)
}

impl Boid {
    /// An agent in `position`, without acceleration, that moves in the
    /// direction of `heading` at unit speed. A `heading` without length
    /// gives an agent without velocity.
    pub fn new(position: &Vector2, color: &Color, heading: &Vector2) -> (boid: Boid)
        requires
            heading@.within(2 * POSITION_MAX),
        ensures
            boid@ == (BoidModel {
                acceleration: IntVector::zero(),
                velocity: heading@.normalized(),
                position: position@,
                color: *color,
            }),
            heading@ != IntVector::zero() ==> unit_speed(boid@.velocity),
            heading@ == IntVector::zero() ==> boid@.velocity == IntVector::zero(),
            position@.within(POSITION_MAX as int) ==> boid@.in_range(),
    {
        proof {
            if heading@ != IntVector::zero() {
                lemma_with_length_accuracy(heading@, ONE as int);
            }
            lemma_norm_squared_bound(heading@, 2 * POSITION_MAX);
            let d = heading@.norm_squared();
            assert(d * ONE * ONE <= u128::MAX) by (nonlinear_arith)
                requires
                    0 <= d <= 2 * ((2 * POSITION_MAX) * (2 * POSITION_MAX)),
            ;
            lemma_with_length_norm(heading@, ONE as int);
        }
        Boid {
            velocity: heading.normalized(),
            position: *position,
            color: *color,
            acceleration: Vector2::zero(),
        }
    }

    /// The force with which the agent seeks `target`; the agent itself is
    /// left as it was.
    pub fn seek(&mut self, target: &Vector2) -> (force: Vector2)
        requires
            old(self)@.in_range(),
            target@.within(POSITION_MAX as int),
        ensures
            *final(self) == *old(self),
            force@ == seek_force(old(self)@, target@),
            force@.norm_squared() <= MAX_FORCE * MAX_FORCE,
    {
        proof {
            lemma_seek_force_bound(self@, target@);
        }
        if target.x == self.position.x && target.y == self.position.y {
            Vector2::zero()
        } else {
            let desired: Vector2 = target.minus(&self.position);
            steer(&self.velocity, &desired)
        }
    }
}

} // verus!
