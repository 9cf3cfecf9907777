//! The steering forces, computed on the agents that a flock holds.

use vstd::prelude::*;
use crate::boid::{models, steer, Boid};
use crate::fixed::{lemma_div_toward_zero_bound, lemma_sqrt_floor_exists, magnitude, ONE};
use crate::params::{
    ALIGN_WEIGHT, BOID_SEPARATION_ZONE, COHESION_WEIGHT, CURSOR_SEPARATE_WEIGHT,
    FLOCK_FORCE_MAX, FLOCK_NEIGHBORHOOD_ZONE, MAX_FORCE, POSITION_MAX, RATE_MAX, SEPARATE_WEIGHT,
};
use crate::steering::{
    alignment_force, all_in_range, cohesion_force, cursor_separation_force, flock_force, in_zone,
    lemma_contribution_bound, lemma_force_bound, lemma_neighbor_mean_bound,
    lemma_neighbor_sum_bound, lemma_push_away_bound, lemma_steer_along_bound,
    lemma_weighted_bound, measure_bound, neighbor_count, neighbor_mean, neighbor_sum, push_away,
    separation_force, steer_along, Measure,
};
use crate::vector2::{lemma_norm_squared_bound, lemma_norm_squared_zero, IntVector, Vector2};

verus! {

/// Both components lie between `-bound` and `bound`.
pub(crate) fn fits(v: &Vector2, bound: i64) -> (r: bool)
    requires
        0 <= bound,
    ensures
        r == v@.within(bound as int),
{
    -bound <= v.x && v.x <= bound && -bound <= v.y && v.y <= bound
}

/// The points `a` and `b` are apart, and closer than `zone`.
fn near(a: &Vector2, b: &Vector2, zone: i64) -> (r: bool)
    requires
        a@.within(POSITION_MAX as int),
        b@.within(POSITION_MAX as int),
        0 <= zone,
    ensures
        r == in_zone(a@, b@, zone as int),
{
    let apart: Vector2 = a.minus(b);
    let d: u128 = apart.mag_squared();
    let z: u128 = zone as u128;
    assert(z * z <= 0x4000_0000_0000_0000_0000_0000_0000_0000) by (nonlinear_arith)
        requires
            0 <= z <= 0x7fff_ffff_ffff_ffff,
    ;
    0 < d && d < z * z
}

/// The push away from `other` that is felt at `from`.
fn push(from: &Vector2, other: &Vector2) -> (r: Vector2)
    requires
        from@.within(POSITION_MAX as int),
        other@.within(POSITION_MAX as int),
        from@ != other@,
    ensures
        r@ == push_away(from@, other@),
        r@.within(ONE * ONE),
{
    let apart: Vector2 = from.minus(other);
    proof {
        lemma_push_away_bound(from@, other@);
        lemma_norm_squared_bound(apart@, 2 * POSITION_MAX);
        let d = apart@.norm_squared();
        assert(d * ONE * ONE <= u128::MAX) by (nonlinear_arith)
            requires
                0 <= d <= 2 * ((2 * POSITION_MAX) * (2 * POSITION_MAX)),
        ;
        lemma_sqrt_floor_exists(d);
        let m = apart@.norm();
        assert(m <= 0x7fff_ffff_ffff_ffff) by (nonlinear_arith)
            requires
                0 <= m,
                m * m <= d,
                d <= 2 * ((2 * POSITION_MAX) * (2 * POSITION_MAX)),
        ;
    }
    let distance: u64 = apart.mag();
    let unit: Vector2 = apart.normalized();
    unit.over(distance as i64)
}

/// The mean of `count` vectors whose sum is given.
fn mean(sum_x: i128, sum_y: i128, count: usize) -> (r: Vector2)
    requires
        0 < count,
        magnitude(sum_x as int) <= 0x7fff_ffff_ffff_ffff * count,
        magnitude(sum_y as int) <= 0x7fff_ffff_ffff_ffff * count,
    ensures
        r@ == (IntVector { x: sum_x as int, y: sum_y as int }).shared(count as int),
{
    let n: i128 = count as i128;
    proof {
        lemma_div_toward_zero_bound(sum_x as int, n as int, 0x7fff_ffff_ffff_ffff);
        lemma_div_toward_zero_bound(sum_y as int, n as int, 0x7fff_ffff_ffff_ffff);
    }
    Vector2 { x: (sum_x / n) as i64, y: (sum_y / n) as i64 }
}

/// The force that turns an agent toward `direction`, and no force where
/// there is no direction.
fn steer_or_rest(velocity: &Vector2, direction: &Vector2) -> (force: Vector2)
    requires
        velocity@.within(RATE_MAX as int),
        direction@.within(2 * POSITION_MAX),
    ensures
        force@ == steer_along(velocity@, direction@),
        force@.norm_squared() <= MAX_FORCE * MAX_FORCE,
{
    proof {
        lemma_steer_along_bound(velocity@, direction@);
    }
    if direction.x == 0 && direction.y == 0 {
        Vector2::zero()
    } else {
        steer(velocity, direction)
    }
}

/// The number of neighbours of an agent within `zone`, and the sum of what
/// they contribute.
fn gather(boids: &Vec<Boid>, index: usize, zone: i64, measure: Measure) -> (r: (i128, i128, usize))
    requires
        all_in_range(models(boids@)),
        index < boids@.len(),
        0 <= zone,
    ensures
        r.2 == neighbor_count(models(boids@), index as int, zone as int, boids@.len() as int),
        (IntVector { x: r.0 as int, y: r.1 as int }) == neighbor_sum(
            measure,
            models(boids@),
            index as int,
            zone as int,
            boids@.len() as int,
        ),
{
    let ghost flock = models(boids@);
    let n: usize = boids.len();
    let current: Boid = boids[index];
    let mut sum_x: i128 = 0;
    let mut sum_y: i128 = 0;
    let mut count: usize = 0;
    let mut j: usize = 0;
    assert(flock[index as int].in_range());
    while j < n
        invariant
            flock == models(boids@),
            all_in_range(flock),
            n == boids@.len(),
            index < n,
            j <= n,
            0 <= zone,
            current@ == flock[index as int],
            current@.in_range(),
            count == neighbor_count(flock, index as int, zone as int, j as int),
            (IntVector { x: sum_x as int, y: sum_y as int }) == neighbor_sum(
                measure,
                flock,
                index as int,
                zone as int,
                j as int,
            ),
        decreases n - j,
    {
        let other: Boid = boids[j];
        proof {
            assert(flock[j as int].in_range());
            assert(other@ == flock[j as int]);
            lemma_neighbor_sum_bound(measure, flock, index as int, zone as int, j as int);
            lemma_neighbor_sum_bound(measure, flock, index as int, zone as int, j + 1);
        }
        if j != index && near(&other.position, &current.position, zone) {
            proof {
                lemma_contribution_bound(measure, flock, index as int, j as int, zone as int);
                lemma_norm_squared_zero(other@.position.minus(current@.position));
                let bound = measure_bound(measure);
                let c = count as int;
                assert(0 <= c * bound <= 0x1_0000_0000_0000_0000 * 0x100_0000_0000)
                    by (nonlinear_arith)
                    requires
                        0 <= c <= 0xffff_ffff_ffff_ffff,
                        0 <= bound <= 0x100_0000_0000,
                ;
            }
            let term: Vector2 = match measure {
                Measure::Position => other.position,
                Measure::Velocity => other.velocity,
                Measure::Repulsion => push(&current.position, &other.position),
            };
            sum_x = sum_x + term.x as i128;
            sum_y = sum_y + term.y as i128;
            count = count + 1;
        }
        j = j + 1;
    }
    (sum_x, sum_y, count)
}

/// The mean of what the neighbours of an agent within `zone` contribute,
/// for an agent that has a neighbour.
fn mean_of(
    boids: &Vec<Boid>,
    index: usize,
    zone: i64,
    measure: Measure,
    sums: (i128, i128, usize),
) -> (r: Vector2)
    requires
        all_in_range(models(boids@)),
        index < boids@.len(),
        sums.2 > 0,
        sums.2 == neighbor_count(models(boids@), index as int, zone as int, boids@.len() as int),
        (IntVector { x: sums.0 as int, y: sums.1 as int }) == neighbor_sum(
            measure,
            models(boids@),
            index as int,
            zone as int,
            boids@.len() as int,
        ),
    ensures
        r@ == neighbor_mean(measure, models(boids@), index as int, zone as int),
        r@.within(measure_bound(measure)),
{
    proof {
        let flock = models(boids@);
        lemma_neighbor_sum_bound(measure, flock, index as int, zone as int, flock.len() as int);
        lemma_neighbor_mean_bound(measure, flock, index as int, zone as int);
        let bound = measure_bound(measure);
        let c = sums.2 as int;
        assert(c * bound <= 0x7fff_ffff_ffff_ffff * c) by (nonlinear_arith)
            requires
                0 <= c,
                0 <= bound <= 0x100_0000_0000,
        ;
    }
    mean(sums.0, sums.1, sums.2)
}

/// Cohesion on the agent at `index`.
pub(crate) fn cohesion_of(boids: &Vec<Boid>, index: usize) -> (force: Vector2)
    requires
        all_in_range(models(boids@)),
        index < boids@.len(),
    ensures
        force@ == cohesion_force(models(boids@), index as int),
        force@.norm_squared() <= MAX_FORCE * MAX_FORCE,
{
    proof {
        lemma_force_bound(models(boids@), index as int, IntVector::zero());
    }
    let sums = gather(boids, index, FLOCK_NEIGHBORHOOD_ZONE, Measure::Position);
    if sums.2 > 0 {
        let center_of_mass: Vector2 = mean_of(
            boids,
            index,
            FLOCK_NEIGHBORHOOD_ZONE,
            Measure::Position,
            sums,
        );
        let mut current: Boid = boids[index];
        assert(current@ == models(boids@)[index as int]);
        assert(models(boids@)[index as int].in_range());
        current.seek(&center_of_mass)
    } else {
        Vector2::zero()
    }
}

/// Separation on the agent at `index`.
pub(crate) fn separation_of(boids: &Vec<Boid>, index: usize) -> (force: Vector2)
    requires
        all_in_range(models(boids@)),
        index < boids@.len(),
    ensures
        force@ == separation_force(models(boids@), index as int),
        force@.norm_squared() <= MAX_FORCE * MAX_FORCE,
{
    proof {
        lemma_force_bound(models(boids@), index as int, IntVector::zero());
    }
    let sums = gather(boids, index, BOID_SEPARATION_ZONE, Measure::Repulsion);
    if sums.2 > 0 {
        let steer_vector: Vector2 = mean_of(
            boids,
            index,
            BOID_SEPARATION_ZONE,
            Measure::Repulsion,
            sums,
        );
        let current: Boid = boids[index];
        assert(current@ == models(boids@)[index as int]);
        assert(models(boids@)[index as int].in_range());
        steer_or_rest(&current.velocity, &steer_vector)
    } else {
        Vector2::zero()
    }
}

/// Separation of the agent at `index` from the repulsor.
pub(crate) fn cursor_separation_of(boids: &Vec<Boid>, index: usize, mouse_cursor: &Vector2) -> (force:
    Vector2)
    requires
        all_in_range(models(boids@)),
        index < boids@.len(),
        mouse_cursor@.within(POSITION_MAX as int),
    ensures
        force@ == cursor_separation_force(models(boids@)[index as int], mouse_cursor@),
        force@.norm_squared() <= MAX_FORCE * MAX_FORCE,
{
    proof {
        lemma_force_bound(models(boids@), index as int, mouse_cursor@);
    }
    let current: Boid = boids[index];
    assert(current@ == models(boids@)[index as int]);
    assert(models(boids@)[index as int].in_range());
    if near(&current.position, mouse_cursor, BOID_SEPARATION_ZONE) {
        proof {
            lemma_norm_squared_zero(current@.position.minus(mouse_cursor@));
        }
        let steer_vector: Vector2 = push(&current.position, mouse_cursor);
        steer_or_rest(&current.velocity, &steer_vector)
    } else {
        Vector2::zero()
    }
}

/// Alignment on the agent at `index`.
pub(crate) fn alignment_of(boids: &Vec<Boid>, index: usize) -> (force: Vector2)
    requires
        all_in_range(models(boids@)),
        index < boids@.len(),
    ensures
        force@ == alignment_force(models(boids@), index as int),
        force@.norm_squared() <= MAX_FORCE * MAX_FORCE,
{
    proof {
        lemma_force_bound(models(boids@), index as int, IntVector::zero());
    }
    let sums = gather(boids, index, FLOCK_NEIGHBORHOOD_ZONE, Measure::Velocity);
    if sums.2 > 0 {
        let average_velocity: Vector2 = mean_of(
            boids,
            index,
            FLOCK_NEIGHBORHOOD_ZONE,
            Measure::Velocity,
            sums,
        );
        let current: Boid = boids[index];
        assert(current@ == models(boids@)[index as int]);
        assert(models(boids@)[index as int].in_range());
        steer_or_rest(&current.velocity, &average_velocity)
    } else {
        Vector2::zero()
    }
}

/// The flock force on the agent at `index`.
pub(crate) fn flock_force_of(boids: &Vec<Boid>, index: usize, mouse_cursor: &Vector2) -> (force:
    Vector2)
    requires
        all_in_range(models(boids@)),
        index < boids@.len(),
        mouse_cursor@.within(POSITION_MAX as int),
    ensures
        force@ == flock_force(models(boids@), index as int, mouse_cursor@),
        force@.within(FLOCK_FORCE_MAX as int),
{
    let pull: Vector2 = cohesion_of(boids, index);
    let apart: Vector2 = separation_of(boids, index);
    let along: Vector2 = alignment_of(boids, index);
    let away: Vector2 = cursor_separation_of(boids, index, mouse_cursor);
    proof {
        lemma_weighted_bound(pull@, COHESION_WEIGHT as int, 50_000);
        lemma_weighted_bound(apart@, SEPARATE_WEIGHT as int, 75_000);
        lemma_weighted_bound(along@, ALIGN_WEIGHT as int, 50_000);
        lemma_weighted_bound(away@, CURSOR_SEPARATE_WEIGHT as int, 200_000);
    }
    let mut result: Vector2 = Vector2::zero();
    result = result.plus(&pull.scaled(COHESION_WEIGHT));
    result = result.plus(&apart.scaled(SEPARATE_WEIGHT));
    result = result.plus(&along.scaled(ALIGN_WEIGHT));
    result = result.plus(&away.scaled(CURSOR_SEPARATE_WEIGHT));
    result
}

} // verus!
