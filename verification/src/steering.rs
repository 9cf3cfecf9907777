//! The steering rules of the flock, as mathematics.
//!
//! An agent looks at the agents around it and is pulled toward their centre
//! (cohesion), pushed away from those that crowd it (separation), turned the
//! way they move (alignment) and pushed away from the repulsor. Each rule
//! gives a force no longer than `MAX_FORCE`; the flock force is their
//! weighted sum.

use vstd::prelude::*;
use crate::boid::{
    lemma_seek_force_bound, lemma_steer_toward_bound, seek_force, steer_toward, BoidModel,
};
use crate::fixed::{
    lemma_div_toward_zero_bound, lemma_ratio_bound, lemma_scale_bound, lemma_sqrt_floor_ordered,
    ONE,
};
use crate::params::{
    ALIGN_WEIGHT, BOID_SEPARATION_ZONE, COHESION_WEIGHT, CURSOR_SEPARATE_WEIGHT,
    FLOCK_NEIGHBORHOOD_ZONE, MAX_FORCE, POSITION_MAX, RATE_MAX, SEPARATE_WEIGHT,
};
use crate::vector2::{
    lemma_component_bound, lemma_norm_squared_zero, lemma_with_length_norm, IntVector,
};

verus! {

/// What is added up over the neighbours of an agent.
#[derive(Clone, Copy, Debug)]
pub enum Measure {
    /// The neighbour's position.
    Position,
    /// The neighbour's velocity.
    Velocity,
    /// The push that the neighbour gives the agent.
    Repulsion,
}

/// The points `a` and `b` are apart, and closer than `zone`.
pub open spec fn in_zone(a: IntVector, b: IntVector, zone: int) -> bool {
    0 < a.minus(b).norm_squared() < zone * zone
}

/// Agent `j` is another agent than `i`, stands elsewhere, and is closer to
/// it than `zone`.
pub open spec fn is_neighbor(boids: Seq<BoidModel>, i: int, j: int, zone: int) -> bool {
    j != i && in_zone(boids[j].position, boids[i].position, zone)
}

/// The push away from `other` that is felt at `from`: the unit vector that
/// points from `other` to `from`, divided by their distance, so that a
/// closer point pushes harder.
pub open spec fn push_away(from: IntVector, other: IntVector) -> IntVector {
    let apart = from.minus(other);
    apart.normalized().over(apart.norm())
}

/// What neighbour `j` adds to the sum that agent `i` forms.
pub open spec fn contribution(measure: Measure, boids: Seq<BoidModel>, i: int, j: int)
    -> IntVector {
    match measure {
        Measure::Position => boids[j].position,
        Measure::Velocity => boids[j].velocity,
        Measure::Repulsion => push_away(boids[i].position, boids[j].position),
    }
}

/// The greatest component that a contribution can have.
pub open spec fn measure_bound(measure: Measure) -> int {
    match measure {
        Measure::Position => POSITION_MAX as int,
        Measure::Velocity => RATE_MAX as int,
        Measure::Repulsion => ONE * ONE,
    }
}

/// The number of neighbours of agent `i` among the first `k` agents.
pub open spec fn neighbor_count(boids: Seq<BoidModel>, i: int, zone: int, k: int) -> int
    decreases k,
{
    if k <= 0 {
        0
    } else {
        neighbor_count(boids, i, zone, k - 1) + if is_neighbor(boids, i, k - 1, zone) {
            1int
        } else {
            0int
        }
    }
}

/// The sum of the contributions of the neighbours of agent `i` among the
/// first `k` agents.
pub open spec fn neighbor_sum(
    measure: Measure,
    boids: Seq<BoidModel>,
    i: int,
    zone: int,
    k: int,
) -> IntVector
    decreases k,
{
    if k <= 0 {
        IntVector::zero()
    } else if is_neighbor(boids, i, k - 1, zone) {
        neighbor_sum(measure, boids, i, zone, k - 1).plus(contribution(measure, boids, i, k - 1))
    } else {
        neighbor_sum(measure, boids, i, zone, k - 1)
    }
}

/// The mean contribution of all neighbours of agent `i`, for an agent that
/// has a neighbour.
pub open spec fn neighbor_mean(measure: Measure, boids: Seq<BoidModel>, i: int, zone: int)
    -> IntVector {
    neighbor_sum(measure, boids, i, zone, boids.len() as int).shared(
        neighbor_count(boids, i, zone, boids.len() as int),
    )
}

/// The force that turns an agent toward `direction`, and no force where
/// there is no direction.
pub open spec fn steer_along(velocity: IntVector, direction: IntVector) -> IntVector {
    if direction == IntVector::zero() {
        IntVector::zero()
    } else {
        steer_toward(velocity, direction)
    }
}

/// Cohesion: agent `i` seeks the mean position of its neighbours in the
/// neighbourhood zone. Without a neighbour there is no force.
pub open spec fn cohesion_force(boids: Seq<BoidModel>, i: int) -> IntVector {
    let zone = FLOCK_NEIGHBORHOOD_ZONE as int;
    if neighbor_count(boids, i, zone, boids.len() as int) > 0 {
        seek_force(boids[i], neighbor_mean(Measure::Position, boids, i, zone))
    } else {
        IntVector::zero()
    }
}

/// Separation: agent `i` steers along the mean push of its neighbours in
/// the separation zone. Without a neighbour, or where the pushes cancel,
/// there is no force.
pub open spec fn separation_force(boids: Seq<BoidModel>, i: int) -> IntVector {
    let zone = BOID_SEPARATION_ZONE as int;
    if neighbor_count(boids, i, zone, boids.len() as int) > 0 {
        steer_along(boids[i].velocity, neighbor_mean(Measure::Repulsion, boids, i, zone))
    } else {
        IntVector::zero()
    }
}

/// Separation from the repulsor: the agent steers along the push of a
/// repulsor in the separation zone. A repulsor that is farther away, or
/// that stands on the agent, gives no force.
pub open spec fn cursor_separation_force(boid: BoidModel, cursor: IntVector) -> IntVector {
    if in_zone(boid.position, cursor, BOID_SEPARATION_ZONE as int) {
        steer_along(boid.velocity, push_away(boid.position, cursor))
    } else {
        IntVector::zero()
    }
}

/// Alignment: agent `i` steers along the mean velocity of its neighbours in
/// the neighbourhood zone. Without a neighbour, or where the velocities
/// cancel, there is no force.
pub open spec fn alignment_force(boids: Seq<BoidModel>, i: int) -> IntVector {
    let zone = FLOCK_NEIGHBORHOOD_ZONE as int;
    if neighbor_count(boids, i, zone, boids.len() as int) > 0 {
        steer_along(boids[i].velocity, neighbor_mean(Measure::Velocity, boids, i, zone))
    } else {
        IntVector::zero()
    }
}

/// The force on agent `i`: the four steering forces, each multiplied by
/// its weight, added up.
pub open spec fn flock_force(boids: Seq<BoidModel>, i: int, cursor: IntVector) -> IntVector {
    IntVector::zero().plus(cohesion_force(boids, i).scaled(COHESION_WEIGHT as int)).plus(
        separation_force(boids, i).scaled(SEPARATE_WEIGHT as int),
    ).plus(alignment_force(boids, i).scaled(ALIGN_WEIGHT as int)).plus(
        cursor_separation_force(boids[i], cursor).scaled(CURSOR_SEPARATE_WEIGHT as int),
    )
}

/// Every agent of the sequence is in range.
pub open spec fn all_in_range(boids: Seq<BoidModel>) -> bool {
    forall|j: int| 0 <= j < boids.len() ==> (#[trigger] boids[j]).in_range()
}

/// The push between two positions that differ has components of at most
/// `ONE * ONE`.
pub proof fn lemma_push_away_bound(from: IntVector, other: IntVector)
    requires
        from != other,
    ensures
        push_away(from, other).within(ONE * ONE),
        from.minus(other).norm() >= 1,
{
    let apart = from.minus(other);
    lemma_norm_squared_zero(apart);
    lemma_sqrt_floor_ordered(apart.norm_squared(), apart.norm_squared());
    lemma_with_length_norm(apart, ONE as int);
    let unit = apart.normalized();
    lemma_ratio_bound(unit.x, apart.norm(), ONE as int, 1, ONE * ONE);
    lemma_ratio_bound(unit.y, apart.norm(), ONE as int, 1, ONE * ONE);
}

/// The contribution of a neighbour has components of at most
/// `measure_bound`.
pub proof fn lemma_contribution_bound(
    measure: Measure,
    boids: Seq<BoidModel>,
    i: int,
    j: int,
    zone: int,
)
    requires
        all_in_range(boids),
        0 <= i < boids.len(),
        0 <= j < boids.len(),
        is_neighbor(boids, i, j, zone),
    ensures
        contribution(measure, boids, i, j).within(measure_bound(measure)),
{
    assert(boids[i].in_range());
    assert(boids[j].in_range());
    lemma_norm_squared_zero(boids[j].position.minus(boids[i].position));
    if boids[i].position != boids[j].position {
        lemma_push_away_bound(boids[i].position, boids[j].position);
    }
}

/// Among the first `k` agents there are at most `k` neighbours, and their
/// sum has components of at most that number times `measure_bound`.
pub proof fn lemma_neighbor_sum_bound(
    measure: Measure,
    boids: Seq<BoidModel>,
    i: int,
    zone: int,
    k: int,
)
    requires
        all_in_range(boids),
        0 <= i < boids.len(),
        0 <= k <= boids.len(),
    ensures
        0 <= neighbor_count(boids, i, zone, k) <= k,
        neighbor_sum(measure, boids, i, zone, k).within(
            neighbor_count(boids, i, zone, k) * measure_bound(measure),
        ),
        neighbor_count(boids, i, zone, k) == 0 ==> neighbor_sum(measure, boids, i, zone, k)
            == IntVector::zero(),
    decreases k,
{
    let bound = measure_bound(measure);
    if k > 0 {
        lemma_neighbor_sum_bound(measure, boids, i, zone, k - 1);
        let n = neighbor_count(boids, i, zone, k - 1);
        if is_neighbor(boids, i, k - 1, zone) {
            lemma_contribution_bound(measure, boids, i, k - 1, zone);
            assert((n + 1) * bound == n * bound + bound) by (nonlinear_arith);
        }
    } else {
        assert(0 * bound == 0);
    }
}

/// The mean contribution of the neighbours has components of at most
/// `measure_bound`.
pub proof fn lemma_neighbor_mean_bound(measure: Measure, boids: Seq<BoidModel>, i: int, zone: int)
    requires
        all_in_range(boids),
        0 <= i < boids.len(),
        neighbor_count(boids, i, zone, boids.len() as int) > 0,
    ensures
        neighbor_mean(measure, boids, i, zone).within(measure_bound(measure)),
{
    let k = boids.len() as int;
    lemma_neighbor_sum_bound(measure, boids, i, zone, k);
    let n = neighbor_count(boids, i, zone, k);
    let sum = neighbor_sum(measure, boids, i, zone, k);
    let bound = measure_bound(measure);
    assert(n * bound == bound * n) by (nonlinear_arith);
    lemma_div_toward_zero_bound(sum.x, n, bound);
    lemma_div_toward_zero_bound(sum.y, n, bound);
}

/// A steering force along a direction is never longer than `MAX_FORCE`.
pub proof fn lemma_steer_along_bound(velocity: IntVector, direction: IntVector)
    ensures
        steer_along(velocity, direction).norm_squared() <= MAX_FORCE * MAX_FORCE,
        steer_along(velocity, direction).within(MAX_FORCE as int),
{
    lemma_steer_toward_bound(velocity, direction);
    lemma_zero_force_bound();
}

/// The zero vector is no longer than `MAX_FORCE`.
pub proof fn lemma_zero_force_bound()
    ensures
        IntVector::zero().norm_squared() <= MAX_FORCE * MAX_FORCE,
        IntVector::zero().within(MAX_FORCE as int),
{
    let z = IntVector::zero();
    assert(z.x * z.x + z.y * z.y == 0) by (nonlinear_arith)
        requires
            z.x == 0,
            z.y == 0,
    ;
    assert(0 <= MAX_FORCE * MAX_FORCE) by (nonlinear_arith);
}

/// Each of the four steering forces, before it is weighted, is no longer
/// than `MAX_FORCE`, whatever the flock and wherever the repulsor.
pub proof fn lemma_force_bound(boids: Seq<BoidModel>, i: int, cursor: IntVector)
    ensures
        cohesion_force(boids, i).norm_squared() <= MAX_FORCE * MAX_FORCE,
        separation_force(boids, i).norm_squared() <= MAX_FORCE * MAX_FORCE,
        alignment_force(boids, i).norm_squared() <= MAX_FORCE * MAX_FORCE,
        cursor_separation_force(boids[i], cursor).norm_squared() <= MAX_FORCE * MAX_FORCE,
{
    lemma_zero_force_bound();
    lemma_seek_force_bound(
        boids[i],
        neighbor_mean(Measure::Position, boids, i, FLOCK_NEIGHBORHOOD_ZONE as int),
    );
    lemma_steer_along_bound(
        boids[i].velocity,
        neighbor_mean(Measure::Repulsion, boids, i, BOID_SEPARATION_ZONE as int),
    );
    lemma_steer_along_bound(
        boids[i].velocity,
        neighbor_mean(Measure::Velocity, boids, i, FLOCK_NEIGHBORHOOD_ZONE as int),
    );
    lemma_steer_along_bound(boids[i].velocity, push_away(boids[i].position, cursor));
}

/// A force no longer than `MAX_FORCE`, multiplied by a weight of at most
/// `weight`, has components of at most `bound`.
pub proof fn lemma_weighted_bound(force: IntVector, weight: int, bound: int)
    requires
        force.norm_squared() <= MAX_FORCE * MAX_FORCE,
        0 <= weight,
        MAX_FORCE * weight <= bound * ONE,
    ensures
        force.scaled(weight).within(bound),
{
    lemma_component_bound(force, MAX_FORCE as int);
    lemma_scale_bound(force.x, weight, MAX_FORCE as int, weight, bound);
    lemma_scale_bound(force.y, weight, MAX_FORCE as int, weight, bound);
}

/// Agent `i` is alone: no other agent is its neighbour in the neighbourhood
/// zone, and the repulsor is outside the separation zone, or on the agent
/// itself.
pub open spec fn isolated(boids: Seq<BoidModel>, i: int, cursor: IntVector) -> bool {
    &&& forall|j: int|
        0 <= j < boids.len() ==> !is_neighbor(boids, i, j, FLOCK_NEIGHBORHOOD_ZONE as int)
    &&& !in_zone(boids[i].position, cursor, BOID_SEPARATION_ZONE as int)
}

/// An agent that is alone is under no force at all: cohesion, separation,
/// alignment and the separation from the repulsor are zero, and so is the
/// flock force.
pub proof fn lemma_isolated_agent_is_free(boids: Seq<BoidModel>, i: int, cursor: IntVector)
    requires
        0 <= i < boids.len(),
        isolated(boids, i, cursor),
    ensures
        cohesion_force(boids, i) == IntVector::zero(),
        separation_force(boids, i) == IntVector::zero(),
        alignment_force(boids, i) == IntVector::zero(),
        cursor_separation_force(boids[i], cursor) == IntVector::zero(),
        flock_force(boids, i, cursor) == IntVector::zero(),
{
    let wide = FLOCK_NEIGHBORHOOD_ZONE as int;
    let narrow = BOID_SEPARATION_ZONE as int;
    assert forall|j: int| 0 <= j < boids.len() implies !is_neighbor(boids, i, j, narrow) by {
        assert(!is_neighbor(boids, i, j, wide));
        assert(narrow * narrow <= wide * wide) by (nonlinear_arith)
            requires
                narrow == 65_000_000,
                wide == 360_000_000,
        ;
    }
    lemma_no_neighbor(boids, i, wide, boids.len() as int);
    lemma_no_neighbor(boids, i, narrow, boids.len() as int);
    lemma_scale_bound(0, COHESION_WEIGHT as int, 0, COHESION_WEIGHT as int, 0);
    lemma_scale_bound(0, SEPARATE_WEIGHT as int, 0, SEPARATE_WEIGHT as int, 0);
    lemma_scale_bound(0, ALIGN_WEIGHT as int, 0, ALIGN_WEIGHT as int, 0);
    lemma_scale_bound(0, CURSOR_SEPARATE_WEIGHT as int, 0, CURSOR_SEPARATE_WEIGHT as int, 0);
}

/// Where none of the first `k` agents is a neighbour, the count is zero.
pub proof fn lemma_no_neighbor(boids: Seq<BoidModel>, i: int, zone: int, k: int)
    requires
        0 <= k <= boids.len(),
        forall|j: int| 0 <= j < boids.len() ==> !is_neighbor(boids, i, j, zone),
    ensures
        neighbor_count(boids, i, zone, k) == 0,
    decreases k,
{
    if k > 0 {
        lemma_no_neighbor(boids, i, zone, k - 1);
    }
}

} // verus!
