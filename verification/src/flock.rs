//! The flock: an ordered collection of agents, the steering forces on each
//! of them, and the time step that moves them.

use vstd::prelude::*;
use crate::boid::{models, unit_speed, Boid, BoidModel, Color};
use crate::fixed::{div_toward_zero, ONE};
use crate::forces::{
    alignment_of, cohesion_of, cursor_separation_of, fits, flock_force_of, separation_of,
};
use crate::motion::{
    integrate, lemma_displacement_bound, lemma_integrate_settles, lemma_same_start_same_course,
    lemma_update_prefix, lemma_update_prefix_agents, run, settled, step, tick_of, update_prefix,
    updated, updated_agent, wrap_axis, Tick,
};
use crate::params::{
    BOID_COLOR, BOID_SIZE_X, BOID_SIZE_Y, DELTA_TIME_MAX, FLOCK_FORCE_MAX, MAX_FORCE, MAX_SPEED,
    POSITION_MAX, RATE_MAX,
};
use crate::steering::{
    alignment_force, all_in_range, cohesion_force, cursor_separation_force, flock_force,
    separation_force,
};
use crate::vector2::{lemma_norm_squared_bound, IntVector, Vector2};

verus! {

/// Why a flock could not be made.
#[derive(Clone, Copy, Debug, PartialEq, Eq, Structural)]
pub enum FlockError {
    /// The number of headings is not the number of agents asked for.
    HeadingCount,
    /// The arena is so large that its centre is no position in range.
    ArenaSize,
    /// A heading has a component beyond twice `POSITION_MAX`.
    HeadingOutOfRange,
    /// An agent is not in range.
    BoidOutOfRange,
}

/// Where a sprite is drawn: the point that it is put on, its size, the
/// point of the sprite that lies on that point, and the direction whose
/// angle is the sprite's rotation.
#[derive(Clone, Copy, Debug)]
pub struct Sprite {
    pub position: Vector2,
    pub size: Vector2,
    pub origin: Vector2,
    pub direction: Vector2,
}

/// The agents of a simulation, in the order in which they were put in. An
/// agent is known by its place in that order. Every agent of a flock is in
/// range.
pub struct Flock {
    boids: Vec<Boid>,
}

impl View for Flock {
    type V = Seq<BoidModel>;

    closed spec fn view(&self) -> Seq<BoidModel> {
        models(self.boids@)
    }
}

/// The centre of an arena of side `area_relative_size` that has one corner
/// in the origin: half the side on each axis, rounded toward zero.
pub open spec fn centre(area_relative_size: int) -> IntVector {
    IntVector {
        x: div_toward_zero(area_relative_size, 2),
        y: div_toward_zero(area_relative_size, 2),
    }
}

/// The centre of the arena is a position in range. This holds of every side
/// from `-2 * POSITION_MAX - 1` to `2 * POSITION_MAX + 1`, whatever its
/// sign.
pub open spec fn arena_in_range(area_relative_size: int) -> bool {
    centre(area_relative_size).within(POSITION_MAX as int)
}

/// The agent that a new flock holds for the heading `heading`: it stands
/// in the centre of the arena and moves at unit speed.
pub open spec fn newborn(area_relative_size: int, heading: IntVector) -> BoidModel {
    BoidModel {
        acceleration: IntVector::zero(),
        velocity: heading.normalized(),
        position: centre(area_relative_size),
        color: Color { rgba: BOID_COLOR },
    }
}

/// The flock that `Flock::new` makes of the headings: one newborn agent for
/// each heading, in the order of the headings.
pub open spec fn hatched(area_relative_size: int, headings: Seq<Vector2>) -> Seq<BoidModel> {
    Seq::new(headings.len(), |j: int| newborn(area_relative_size, headings[j]@))
}

/// Every heading has components of at most twice `POSITION_MAX`.
pub open spec fn headings_in_range(headings: Seq<Vector2>) -> bool {
    forall|j: int| 0 <= j < headings.len() ==> (#[trigger] headings[j])@.within(2 * POSITION_MAX)
}

/// The direction whose angle is the rotation of an agent's sprite: the
/// velocity, turned back by a right angle. An agent at rest is drawn as one
/// that heads along the first axis.
pub open spec fn sprite_direction(velocity: IntVector) -> IntVector {
    if velocity == IntVector::zero() {
        (IntVector { x: ONE as int, y: 0 }).quarter_turn()
    } else {
        velocity.quarter_turn()
    }
}

/// One coordinate after the boundary rule.
pub fn wrap_coordinate(c: i64, low: i64, high: i64) -> (r: i64)
    ensures
        r == wrap_axis(c as int, low as int, high as int),
{
    if c > high {
        low
    } else if c < low {
        high
    } else {
        c
    }
}

/// The arguments are such that `Flock::update` can take the time step.
pub fn tick_is_valid(
    delta_time: i64,
    area_relative_size: i64,
    border_thick: i64,
    mouse_cursor: &Vector2,
) -> (r: bool)
    ensures
        r == tick_of(delta_time, area_relative_size, border_thick, *mouse_cursor).valid(),
{
    0 <= delta_time && delta_time <= DELTA_TIME_MAX && 0 < area_relative_size
        && area_relative_size <= POSITION_MAX && 0 <= border_thick && border_thick
        < area_relative_size && fits(mouse_cursor, POSITION_MAX)
}

/// Determinism: two flocks that are made in the same arena with the same
/// headings, and are given the same time steps, are in the same state after
/// them. Nothing but the headings and the time steps enters the course of a
/// flock.
pub proof fn lemma_same_headings_same_course(
    area_relative_size: int,
    first: Seq<Vector2>,
    second: Seq<Vector2>,
    first_ticks: Seq<Tick>,
    second_ticks: Seq<Tick>,
)
    requires
        first == second,
        first_ticks == second_ticks,
    ensures
        run(hatched(area_relative_size, first), first_ticks) == run(
            hatched(area_relative_size, second),
            second_ticks,
        ),
{
    lemma_same_start_same_course(
        hatched(area_relative_size, first),
        hatched(area_relative_size, second),
        first_ticks,
        second_ticks,
    );
}

impl Flock {
    /// Every agent of a flock is in range, at all times.
    #[verifier::type_invariant]
    spec fn wf(self) -> bool {
        all_in_range(models(self.boids@))
    }

    /// A flock of `count` agents in the centre of an arena of side
    /// `area_relative_size`. Agent `j` sets out in the direction of
    /// `headings[j]`, at unit speed. The side may have any sign, and may be
    /// zero: a flock is refused only for what cannot be represented, and
    /// for headings that are not as many as the agents.
    pub fn new(count: usize, area_relative_size: i64, headings: &Vec<Vector2>) -> (r: Result<
        Flock,
        FlockError,
    >)
        ensures
            match r {
                Ok(flock) => {
                    &&& headings@.len() == count
                    &&& arena_in_range(area_relative_size as int)
                    &&& headings_in_range(headings@)
                    &&& flock@ == hatched(area_relative_size as int, headings@)
                    &&& flock@.len() == count
                    &&& all_in_range(flock@)
                    &&& forall|j: int|
                        0 <= j < count && headings@[j]@ != IntVector::zero() ==> unit_speed(
                            (#[trigger] flock@[j]).velocity,
                        )
                },
                Err(FlockError::HeadingCount) => headings@.len() != count,
                Err(FlockError::ArenaSize) => {
                    &&& headings@.len() == count
                    &&& !arena_in_range(area_relative_size as int)
                },
                Err(FlockError::HeadingOutOfRange) => {
                    &&& headings@.len() == count
                    &&& arena_in_range(area_relative_size as int)
                    &&& !headings_in_range(headings@)
                },
                Err(FlockError::BoidOutOfRange) => false,
            },
    {
        if headings.len() != count {
            return Err(FlockError::HeadingCount);
        }
        let position: Vector2 = Vector2::new(area_relative_size / 2, area_relative_size / 2);
        if !fits(&position, POSITION_MAX) {
            return Err(FlockError::ArenaSize);
        }
        let color: Color = Color::from_hex(BOID_COLOR);
        let mut boids: Vec<Boid> = Vec::new();
        let mut j: usize = 0;
        while j < count
            invariant
                j <= count,
                headings@.len() == count,
                boids@.len() == j,
                arena_in_range(area_relative_size as int),
                position@ == centre(area_relative_size as int),
                color == (Color { rgba: BOID_COLOR }),
                forall|k: int| 0 <= k < j ==> (#[trigger] headings@[k])@.within(2 * POSITION_MAX),
                forall|k: int|
                    0 <= k < j ==> (#[trigger] boids@[k])@ == newborn(
                        area_relative_size as int,
                        headings@[k]@,
                    ),
                forall|k: int| 0 <= k < j ==> (#[trigger] boids@[k])@.in_range(),
                forall|k: int|
                    0 <= k < j && headings@[k]@ != IntVector::zero() ==> unit_speed(
                        (#[trigger] boids@[k])@.velocity,
                    ),
            decreases count - j,
        {
            let heading: Vector2 = headings[j];
            if !fits(&heading, 2 * POSITION_MAX) {
                assert(!headings@[j as int]@.within(2 * POSITION_MAX));
                return Err(FlockError::HeadingOutOfRange);
            }
            let boid: Boid = Boid::new(&position, &color, &heading);
            boids.push(boid);
            j = j + 1;
        }
        proof {
            let flock = models(boids@);
            assert forall|k: int| 0 <= k < flock.len() implies (#[trigger] flock[k]).in_range() by {
                assert(flock[k] == boids@[k]@);
            }
            assert(flock =~= hatched(area_relative_size as int, headings@));
            assert forall|k: int|
                0 <= k < count && headings@[k]@ != IntVector::zero() implies unit_speed(
                (#[trigger] flock[k]).velocity,
            ) by {
                assert(flock[k] == boids@[k]@);
            }
        }
        Ok(Flock { boids })
    }

    /// The flock of the given agents, in their order.
    pub fn from_boids(boids: Vec<Boid>) -> (r: Result<Flock, FlockError>)
        ensures
            match r {
                Ok(flock) => flock@ == models(boids@) && all_in_range(flock@),
                Err(e) => e == FlockError::BoidOutOfRange && !all_in_range(models(boids@)),
            },
    {
        let n: usize = boids.len();
        let mut j: usize = 0;
        while j < n
            invariant
                j <= n,
                n == boids@.len(),
                forall|k: int| 0 <= k < j ==> (#[trigger] boids@[k])@.in_range(),
            decreases n - j,
        {
            let boid: Boid = boids[j];
            if !(fits(&boid.position, POSITION_MAX) && fits(&boid.velocity, RATE_MAX) && fits(
                &boid.acceleration,
                RATE_MAX,
            )) {
                assert(!models(boids@)[j as int].in_range());
                return Err(FlockError::BoidOutOfRange);
            }
            j = j + 1;
        }
        proof {
            let flock = models(boids@);
            assert forall|k: int| 0 <= k < flock.len() implies (#[trigger] flock[k]).in_range() by {
                assert(flock[k] == boids@[k]@);
            }
        }
        Ok(Flock { boids })
    }

    /// The number of agents.
    pub fn len(&self) -> (n: usize)
        ensures
            n == self@.len(),
            all_in_range(self@),
    {
        proof {
            use_type_invariant(self);
        }
        self.boids.len()
    }

    /// The agent at place `index`.
    pub fn boid(&self, index: usize) -> (boid: Boid)
        requires
            index < self@.len(),
        ensures
            boid@ == self@[index as int],
            boid@.in_range(),
    {
        proof {
            use_type_invariant(self);
        }
        self.boids[index]
    }

    /// The sprites of the agents, in the order of the agents. A sprite lies
    /// with its middle on the agent and is turned by the angle of the
    /// agent's velocity less a right angle. The flock is left as it was.
    pub fn update_model(&mut self) -> (sprites: Vec<Sprite>)
        ensures
            *final(self) == *old(self),
            sprites@.len() == old(self)@.len(),
            forall|j: int|
                0 <= j < sprites@.len() ==> {
                    &&& (#[trigger] sprites@[j]).position@ == old(self)@[j].position
                    &&& sprites@[j].size@ == (IntVector {
                        x: BOID_SIZE_X as int,
                        y: BOID_SIZE_Y as int,
                    })
                    &&& sprites@[j].origin@ == (IntVector {
                        x: BOID_SIZE_X / 2,
                        y: BOID_SIZE_Y / 2,
                    })
                    &&& sprites@[j].direction@ == sprite_direction(old(self)@[j].velocity)
                },
    {
        proof {
            use_type_invariant(&*self);
        }
        let n: usize = self.boids.len();
        let mut sprites: Vec<Sprite> = Vec::new();
        let mut j: usize = 0;
        while j < n
            invariant
                j <= n,
                n == self.boids@.len(),
                all_in_range(self@),
                *self == *old(self),
                sprites@.len() == j,
                forall|k: int|
                    0 <= k < j ==> {
                        &&& (#[trigger] sprites@[k]).position@ == self@[k].position
                        &&& sprites@[k].size@ == (IntVector {
                            x: BOID_SIZE_X as int,
                            y: BOID_SIZE_Y as int,
                        })
                        &&& sprites@[k].origin@ == (IntVector {
                            x: BOID_SIZE_X / 2,
                            y: BOID_SIZE_Y / 2,
                        })
                        &&& sprites@[k].direction@ == sprite_direction(self@[k].velocity)
                    },
            decreases n - j,
        {
            let boid: Boid = self.boids[j];
            assert(self@[j as int].in_range());
            let heading: Vector2 = if boid.velocity.x == 0 && boid.velocity.y == 0 {
                Vector2::new(ONE, 0)
            } else {
                boid.velocity
            };
            sprites.push(
                Sprite {
                    position: boid.position,
                    size: Vector2::new(BOID_SIZE_X, BOID_SIZE_Y),
                    origin: Vector2::new(BOID_SIZE_X / 2, BOID_SIZE_Y / 2),
                    direction: heading.quarter_turn(),
                },
            );
            j = j + 1;
        }
        sprites
    }

    /// Cohesion: the force with which the agent seeks the mean position of
    /// its neighbours. The flock is left as it was.
    pub fn cohesion(&mut self, current_boid_index: usize) -> (force: Vector2)
        requires
            current_boid_index < old(self)@.len(),
        ensures
            *final(self) == *old(self),
            force@ == cohesion_force(old(self)@, current_boid_index as int),
            force@.norm_squared() <= MAX_FORCE * MAX_FORCE,
    {
        proof {
            use_type_invariant(&*self);
        }
        cohesion_of(&self.boids, current_boid_index)
    }

    /// Separation: the force that drives the agent away from the
    /// neighbours that crowd it.
    pub fn separate(&self, current_boid_index: usize) -> (force: Vector2)
        requires
            current_boid_index < self@.len(),
        ensures
            force@ == separation_force(self@, current_boid_index as int),
            force@.norm_squared() <= MAX_FORCE * MAX_FORCE,
    {
        proof {
            use_type_invariant(self);
        }
        separation_of(&self.boids, current_boid_index)
    }

    /// Separation from the repulsor: the force that drives the agent away
    /// from `mouse_cursor`.
    pub fn separate_from_cursor(&self, current_boid_index: usize, mouse_cursor: &Vector2) -> (force:
        Vector2)
        requires
            current_boid_index < self@.len(),
            mouse_cursor@.within(POSITION_MAX as int),
        ensures
            force@ == cursor_separation_force(self@[current_boid_index as int], mouse_cursor@),
            force@.norm_squared() <= MAX_FORCE * MAX_FORCE,
    {
        proof {
            use_type_invariant(self);
        }
        cursor_separation_of(&self.boids, current_boid_index, mouse_cursor)
    }

    /// Alignment: the force that turns the agent the way its neighbours
    /// move.
    pub fn align(&self, current_boid_index: usize) -> (force: Vector2)
        requires
            current_boid_index < self@.len(),
        ensures
            force@ == alignment_force(self@, current_boid_index as int),
            force@.norm_squared() <= MAX_FORCE * MAX_FORCE,
    {
        proof {
            use_type_invariant(self);
        }
        alignment_of(&self.boids, current_boid_index)
    }

    /// The force on the agent: the weighted sum of cohesion, separation,
    /// alignment and the separation from the repulsor. The flock is left as
    /// it was.
    pub fn flock(&mut self, current_boid_index: usize, mouse_cursor: &Vector2) -> (force: Vector2)
        requires
            current_boid_index < old(self)@.len(),
            mouse_cursor@.within(POSITION_MAX as int),
        ensures
            *final(self) == *old(self),
            force@ == flock_force(old(self)@, current_boid_index as int, mouse_cursor@),
            force@.within(FLOCK_FORCE_MAX as int),
    {
        proof {
            use_type_invariant(&*self);
        }
        flock_force_of(&self.boids, current_boid_index, mouse_cursor)
    }

    /// One time step: every agent in turn, in the order of the flock, takes
    /// the flock force as its acceleration, changes its velocity by it
    /// without exceeding `MAX_SPEED`, moves for `delta_time`, comes back at
    /// the opposite edge where it has crossed the border band, and is left
    /// with no acceleration. The agents are moved in place: each one feels
    /// the agents before it where the time step has put them.
    pub fn update(
        &mut self,
        delta_time: i64,
        area_relative_size: i64,
        border_thick: i64,
        mouse_cursor: &Vector2,
    )
        requires
            tick_of(delta_time, area_relative_size, border_thick, *mouse_cursor).valid(),
        ensures
            final(self)@ == updated(
                old(self)@,
                tick_of(delta_time, area_relative_size, border_thick, *mouse_cursor),
            ),
            final(self)@.len() == old(self)@.len(),
            all_in_range(final(self)@),
            forall|j: int|
                0 <= j < final(self)@.len() ==> #[trigger] final(self)@[j] == updated_agent(
                    old(self)@,
                    j,
                    tick_of(delta_time, area_relative_size, border_thick, *mouse_cursor),
                ),
            forall|j: int|
                0 <= j < final(self)@.len() ==> settled(
                    #[trigger] final(self)@[j],
                    tick_of(delta_time, area_relative_size, border_thick, *mouse_cursor),
                ),
            forall|j: int|
                0 <= j < final(self)@.len() ==> (#[trigger] final(self)@[j]).color == old(
                    self,
                )@[j].color,
    {
        proof {
            use_type_invariant(&*self);
        }
        let ghost tick = tick_of(delta_time, area_relative_size, border_thick, *mouse_cursor);
        let ghost before = self@;
        let low: i64 = border_thick / 2;
        let high: i64 = area_relative_size - border_thick / 2;
        let mut boids: Vec<Boid> = Vec::new();
        proof {
            assert(models(boids@) =~= Seq::<BoidModel>::empty());
        }
        std::mem::swap(&mut boids, &mut self.boids);
        let n: usize = boids.len();
        let mut boid_index: usize = 0;
        while boid_index < n
            invariant
                boid_index <= n,
                n == boids@.len(),
                n == before.len(),
                all_in_range(before),
                all_in_range(models(boids@)),
                tick.valid(),
                tick.delta_time == delta_time,
                tick.repulsor == mouse_cursor@,
                low == tick.low(),
                high == tick.high(),
                models(boids@) == update_prefix(before, boid_index as int, tick),
            decreases n - boid_index,
        {
            let ghost here = models(boids@);
            let force: Vector2 = flock_force_of(&boids, boid_index, mouse_cursor);
            let mut current_boid: Boid = boids[boid_index];
            proof {
                assert(current_boid@ == here[boid_index as int]);
                assert(here[boid_index as int].in_range());
            }
            current_boid.acceleration = current_boid.acceleration.plus(&force);
            let pace: Vector2 = current_boid.velocity.plus(&current_boid.acceleration);
            proof {
                lemma_norm_squared_bound(pace@, 2 * RATE_MAX + FLOCK_FORCE_MAX);
                let d = pace@.norm_squared();
                assert(d * MAX_SPEED * MAX_SPEED <= u128::MAX) by (nonlinear_arith)
                    requires
                        0 <= d <= 2 * ((2 * RATE_MAX + FLOCK_FORCE_MAX) * (2 * RATE_MAX
                            + FLOCK_FORCE_MAX)),
                ;
            }
            current_boid.velocity = pace.limited(MAX_SPEED);
            proof {
                lemma_displacement_bound(current_boid.velocity@, delta_time as int);
            }
            let way: Vector2 = current_boid.velocity.scaled(delta_time);
            current_boid.position = current_boid.position.plus(&way);
            current_boid.acceleration = Vector2::zero();
            current_boid.position.x = wrap_coordinate(current_boid.position.x, low, high);
            current_boid.position.y = wrap_coordinate(current_boid.position.y, low, high);
            proof {
                lemma_integrate_settles(here[boid_index as int], force@, tick);
                assert(current_boid@ == integrate(here[boid_index as int], force@, tick));
            }
            boids.set(boid_index, current_boid);
            proof {
                assert(models(boids@) =~= step(here, boid_index as int, tick));
                lemma_update_prefix(before, boid_index + 1, tick);
            }
            boid_index = boid_index + 1;
        }
        proof {
            lemma_update_prefix(before, n as int, tick);
            lemma_update_prefix_agents(before, n as int, tick);
        }
        self.boids = boids;
    }
}

} // verus!
