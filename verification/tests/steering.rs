use flocking::boid::{steer, Boid, Color};
use flocking::fixed::ONE;
use flocking::flock::Flock;
use flocking::params::{
    ALIGN_WEIGHT, BOID_SEPARATION_ZONE, COHESION_WEIGHT, CURSOR_SEPARATE_WEIGHT,
    FLOCK_NEIGHBORHOOD_ZONE, MAX_FORCE, MAX_SPEED, SEPARATE_WEIGHT,
};
use flocking::vector2::Vector2;

const U: i64 = ONE;

fn agent(px: i64, py: i64, vx: i64, vy: i64) -> Boid {
    Boid {
        acceleration: Vector2::zero(),
        velocity: Vector2::new(vx, vy),
        position: Vector2::new(px, py),
        color: Color::from_hex(0x79e0_95ff),
    }
}

fn flock_of(boids: Vec<Boid>) -> Flock {
    match Flock::from_boids(boids) {
        Ok(flock) => flock,
        Err(e) => panic!("the agents are in range, yet: {:?}", e),
    }
}

fn four_agents() -> Flock {
    flock_of(vec![
        agent(500 * U, 500 * U, U, 0),
        agent(510 * U, 500 * U, 0, U),
        agent(500 * U, 520 * U, -U, 0),
        agent(900 * U, 900 * U, 0, -U),
    ])
}

fn far_away() -> Vector2 {
    Vector2::new(10_000 * U, 10_000 * U)
}

#[test]
fn constants_have_their_values() {
    assert_eq!(MAX_SPEED, 200 * U);
    assert_eq!(MAX_FORCE, 50_000);
    assert_eq!(FLOCK_NEIGHBORHOOD_ZONE, 360 * U);
    assert_eq!(BOID_SEPARATION_ZONE, 65 * U);
    assert_eq!(COHESION_WEIGHT, U);
    assert_eq!(SEPARATE_WEIGHT, 1_500_000);
    assert_eq!(ALIGN_WEIGHT, U);
    assert_eq!(CURSOR_SEPARATE_WEIGHT, 4 * U);
}

#[test]
fn steer_is_full_speed_less_velocity_limited() {
    // Full speed to the right is (200, 0); with the agent at rest the change
    // of (200, 0) is cut down to the greatest force.
    assert_eq!(steer(&Vector2::zero(), &Vector2::new(7, 0)), Vector2::new(50_000, 0));
    // Moving right at unit speed and asked to go up: the change is (-1, 200).
    assert_eq!(steer(&Vector2::new(U, 0), &Vector2::new(0, 3 * U)), Vector2::new(-249, 49_999));
    // Already at full speed in the direction asked for: nothing to change.
    assert_eq!(steer(&Vector2::new(200 * U, 0), &Vector2::new(U, 0)), Vector2::zero());
    // A little slower than full speed: the change is shorter than the limit.
    assert_eq!(
        steer(&Vector2::new(200 * U - 1_000, 0), &Vector2::new(U, 0)),
        Vector2::new(1_000, 0)
    );
}

#[test]
fn seek_steers_toward_the_target() {
    let mut at_rest = agent(0, 0, 0, 0);
    assert_eq!(at_rest.seek(&Vector2::new(10 * U, 0)), Vector2::new(50_000, 0));
    let mut moving = agent(100 * U, 100 * U, U, 0);
    assert_eq!(moving.seek(&Vector2::new(100 * U, 200 * U)), Vector2::new(-249, 49_999));
    assert_eq!(moving.seek(&Vector2::new(40 * U, 20 * U)), Vector2::new(-30_159, -39_880));
}

#[test]
fn seek_on_the_target_is_no_force() {
    let mut moving = agent(100 * U, 100 * U, U, 0);
    assert_eq!(moving.seek(&Vector2::new(100 * U, 100 * U)), Vector2::zero());
}

#[test]
fn seek_leaves_the_agent_alone() {
    let mut moving = agent(100 * U, 100 * U, U, -3);
    moving.acceleration = Vector2::new(5, 6);
    moving.seek(&Vector2::new(40 * U, 20 * U));
    assert_eq!(moving.position, Vector2::new(100 * U, 100 * U));
    assert_eq!(moving.velocity, Vector2::new(U, -3));
    assert_eq!(moving.acceleration, Vector2::new(5, 6));
}

#[test]
fn cohesion_seeks_the_centre_of_the_neighbours() {
    let mut flock = four_agents();
    assert_eq!(flock.cohesion(0), Vector2::new(22_159, 44_821));
    assert_eq!(flock.cohesion(1), Vector2::new(-35_480, 35_229));
    assert_eq!(flock.cohesion(2), Vector2::new(12_361, -48_447));
}

#[test]
fn separate_pushes_away_from_the_neighbours() {
    let flock = four_agents();
    assert_eq!(flock.separate(0), Vector2::new(-44_771, -22_261));
    assert_eq!(flock.separate(1), Vector2::new(47_358, -16_035));
    assert_eq!(flock.separate(2), Vector2::new(-10_607, 48_861));
}

#[test]
fn align_turns_toward_the_mean_velocity() {
    let flock = four_agents();
    assert_eq!(flock.align(0), Vector2::new(-35_479, 35_230));
    assert_eq!(flock.align(2), Vector2::new(35_479, 35_230));
}

#[test]
fn align_with_velocities_that_cancel_is_no_force() {
    // The neighbours of agent 1 move right and left at the same speed.
    let flock = four_agents();
    assert_eq!(flock.align(1), Vector2::zero());
}

#[test]
fn separate_from_cursor_pushes_away_from_the_repulsor() {
    let flock = four_agents();
    let cursor = Vector2::new(505 * U, 505 * U);
    assert_eq!(flock.separate_from_cursor(0, &cursor), Vector2::new(-35_479, -35_230));
    assert_eq!(flock.separate_from_cursor(1, &cursor), Vector2::new(35_230, -35_479));
    assert_eq!(flock.separate_from_cursor(2, &cursor), Vector2::new(-15_585, 47_508));
    assert_eq!(flock.separate_from_cursor(3, &cursor), Vector2::zero());
}

#[test]
fn flock_is_the_weighted_sum() {
    let mut flock = four_agents();
    let cursor = Vector2::new(505 * U, 505 * U);
    assert_eq!(flock.flock(0, &cursor), Vector2::new(-222_392, -94_260));
    assert_eq!(flock.flock(1, &cursor), Vector2::new(176_477, -130_739));
    assert_eq!(flock.flock(2, &cursor), Vector2::new(-30_410, 250_106));
    let pull = flock.cohesion(0);
    let apart = flock.separate(0);
    let along = flock.align(0);
    let away = flock.separate_from_cursor(0, &cursor);
    let sum = pull
        .scaled(COHESION_WEIGHT)
        .plus(&apart.scaled(SEPARATE_WEIGHT))
        .plus(&along.scaled(ALIGN_WEIGHT))
        .plus(&away.scaled(CURSOR_SEPARATE_WEIGHT));
    assert_eq!(flock.flock(0, &cursor), sum);
}

#[test]
fn isolated_agent_is_under_no_force() {
    let mut flock = four_agents();
    assert_eq!(flock.cohesion(3), Vector2::zero());
    assert_eq!(flock.separate(3), Vector2::zero());
    assert_eq!(flock.align(3), Vector2::zero());
    assert_eq!(flock.separate_from_cursor(3, &far_away()), Vector2::zero());
    assert_eq!(flock.flock(3, &far_away()), Vector2::zero());
}

#[test]
fn single_agent_with_repulsor_on_it_is_under_no_force() {
    let mut flock = flock_of(vec![agent(100 * U, 100 * U, 0, U)]);
    let on_the_agent = Vector2::new(100 * U, 100 * U);
    assert_eq!(flock.separate_from_cursor(0, &on_the_agent), Vector2::zero());
    assert_eq!(flock.cohesion(0), Vector2::zero());
    assert_eq!(flock.separate(0), Vector2::zero());
    assert_eq!(flock.align(0), Vector2::zero());
    assert_eq!(flock.flock(0, &on_the_agent), Vector2::zero());
}

#[test]
fn repulsor_acts_inside_the_separation_zone_only() {
    let flock = flock_of(vec![agent(100 * U, 100 * U, 0, U)]);
    assert_eq!(
        flock.separate_from_cursor(0, &Vector2::new(110 * U, 100 * U)),
        Vector2::new(-49_999, -249)
    );
    assert_eq!(flock.separate_from_cursor(0, &Vector2::new(100 * U, 60 * U)), Vector2::new(0, 50_000));
    // Exactly on the edge of the zone: outside.
    assert_eq!(flock.separate_from_cursor(0, &Vector2::new(165 * U, 100 * U)), Vector2::zero());
    // A millionth inside.
    assert_eq!(
        flock.separate_from_cursor(0, &Vector2::new(165 * U - 1, 100 * U)),
        Vector2::new(-49_999, -249)
    );
}

#[test]
fn two_agents_ten_apart_push_each_other_away() {
    let mut flock = flock_of(vec![agent(0, 0, 0, 0), agent(10 * U, 0, 0, 0)]);
    assert_eq!(flock.separate(0), Vector2::new(-50_000, 0));
    assert_eq!(flock.separate(1), Vector2::new(50_000, 0));
    assert_eq!(flock.cohesion(0), Vector2::new(50_000, 0));
    assert_eq!(flock.cohesion(1), Vector2::new(-50_000, 0));
    assert_eq!(flock.align(0), Vector2::zero());
    assert_eq!(flock.align(1), Vector2::zero());
    // Separation weighs 1.5 and cohesion 1: the agents are driven apart.
    assert_eq!(flock.flock(0, &far_away()), Vector2::new(-25_000, 0));
    assert_eq!(flock.flock(1, &far_away()), Vector2::new(25_000, 0));
}

#[test]
fn agent_in_the_middle_of_its_neighbours_is_not_pulled() {
    let mut flock = flock_of(vec![
        agent(490 * U, 500 * U, 0, 0),
        agent(500 * U, 500 * U, U, 0),
        agent(510 * U, 500 * U, 0, 0),
    ]);
    // The centre of the neighbours is the agent's own position, the pushes
    // cancel, and the neighbours are at rest.
    assert_eq!(flock.cohesion(1), Vector2::zero());
    assert_eq!(flock.separate(1), Vector2::zero());
    assert_eq!(flock.align(1), Vector2::zero());
}

#[test]
fn agents_on_the_same_spot_are_no_neighbours() {
    let mut flock = flock_of(vec![agent(500 * U, 500 * U, U, 0), agent(500 * U, 500 * U, 0, U)]);
    assert_eq!(flock.cohesion(0), Vector2::zero());
    assert_eq!(flock.separate(0), Vector2::zero());
    assert_eq!(flock.align(0), Vector2::zero());
}

#[test]
fn neighbourhood_ends_at_its_radius() {
    let inside = flock_of(vec![agent(0, 0, 0, 0), agent(360 * U - 1, 0, 0, U)]);
    assert_eq!(inside.align(0), Vector2::new(0, 50_000));
    let outside = flock_of(vec![agent(0, 0, 0, 0), agent(360 * U, 0, 0, U)]);
    assert_eq!(outside.align(0), Vector2::zero());
    let crowding = flock_of(vec![agent(0, 0, 0, 0), agent(65 * U - 1, 0, 0, U)]);
    assert_eq!(crowding.separate(0), Vector2::new(-50_000, 0));
    let apart = flock_of(vec![agent(0, 0, 0, 0), agent(65 * U, 0, 0, U)]);
    assert_eq!(apart.separate(0), Vector2::zero());
}

#[test]
fn every_force_is_at_most_the_greatest_force() {
    let mut flock = flock_of(vec![
        agent(500 * U, 500 * U, 150 * U, -20 * U),
        agent(510 * U, 503 * U, -7 * U, 90 * U),
        agent(470 * U, 520 * U, -U, 0),
        agent(530 * U, 480 * U, 3 * U, 3 * U),
        agent(700 * U, 650 * U, 0, -199 * U),
    ]);
    let cursor = Vector2::new(505 * U, 498 * U);
    let limit = (MAX_FORCE as u128) * (MAX_FORCE as u128);
    let mut i: usize = 0;
    while i < flock.len() {
        assert!(flock.cohesion(i).mag_squared() <= limit);
        assert!(flock.separate(i).mag_squared() <= limit);
        assert!(flock.align(i).mag_squared() <= limit);
        assert!(flock.separate_from_cursor(i, &cursor).mag_squared() <= limit);
        i += 1;
    }
}

#[test]
fn forces_leave_the_flock_alone() {
    let mut flock = four_agents();
    let cursor = Vector2::new(505 * U, 505 * U);
    flock.cohesion(0);
    flock.flock(1, &cursor);
    let reference = four_agents();
    let mut i: usize = 0;
    while i < flock.len() {
        assert_eq!(flock.boid(i).position, reference.boid(i).position);
        assert_eq!(flock.boid(i).velocity, reference.boid(i).velocity);
        assert_eq!(flock.boid(i).acceleration, reference.boid(i).acceleration);
        i += 1;
    }
}
