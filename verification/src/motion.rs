//! One time step of the flock, as mathematics.
//!
//! The agents are moved one after the other, in the order in which the flock
//! holds them, and each one is moved in place: an agent sees its
//! predecessors where the step has put them and its successors where the
//! step before left them.

use vstd::prelude::*;
use crate::boid::BoidModel;
use crate::fixed::lemma_scale_bound;
use crate::params::{DELTA_TIME_MAX, MAX_SPEED, POSITION_MAX};
use crate::steering::{all_in_range, flock_force, isolated, lemma_isolated_agent_is_free};
use crate::vector2::{lemma_component_bound, lemma_limited_norm, IntVector, Vector2};

verus! {

/// What a time step is given: the time that has passed, the side of the
/// square arena, the thickness of the band along its edges, and the point
/// that the agents avoid.
pub struct Tick {
    pub delta_time: int,
    pub area_relative_size: int,
    pub border_thick: int,
    pub repulsor: IntVector,
}

impl Tick {
    /// The time step is one that a flock can take: time does not run
    /// backwards, the arena has a size, the border band is thinner than the
    /// arena, and all of it can be represented.
    pub open spec fn valid(self) -> bool {
        &&& 0 <= self.delta_time <= DELTA_TIME_MAX
        &&& 0 < self.area_relative_size <= POSITION_MAX
        &&& 0 <= self.border_thick < self.area_relative_size
        &&& self.repulsor.within(POSITION_MAX as int)
    }

    /// The lowest coordinate inside the border band.
    pub open spec fn low(self) -> int {
        self.border_thick / 2
    }

    /// The highest coordinate inside the border band.
    pub open spec fn high(self) -> int {
        self.area_relative_size - self.border_thick / 2
    }

    /// The point lies inside the border band.
    pub open spec fn holds(self, p: IntVector) -> bool {
        self.low() <= p.x <= self.high() && self.low() <= p.y <= self.high()
    }
}

/// The time step that `Flock::update` takes for the given arguments.
pub open spec fn tick_of(
    delta_time: i64,
    area_relative_size: i64,
    border_thick: i64,
    mouse_cursor: Vector2,
) -> Tick {
    Tick {
        delta_time: delta_time as int,
        area_relative_size: area_relative_size as int,
        border_thick: border_thick as int,
        repulsor: mouse_cursor@,
    }
}

/// One coordinate after the boundary rule: a coordinate beyond the high
/// edge comes back at the low edge, one below the low edge at the high edge,
/// and any other stays.
pub open spec fn wrap_axis(c: int, low: int, high: int) -> int {
    if c > high {
        low
    } else if c < low {
        high
    } else {
        c
    }
}

/// A position after the boundary rule, applied to each axis by itself.
pub open spec fn wrap(p: IntVector, tick: Tick) -> IntVector {
    IntVector {
        x: wrap_axis(p.x, tick.low(), tick.high()),
        y: wrap_axis(p.y, tick.low(), tick.high()),
    }
}

/// The agent after one step under `force`: the force is added to the
/// acceleration, the acceleration to the velocity, which is limited to
/// `MAX_SPEED`; the agent moves for `delta_time` at that velocity, the
/// boundary rule is applied, and the acceleration starts again at zero.
pub open spec fn integrate(boid: BoidModel, force: IntVector, tick: Tick) -> BoidModel {
    let acceleration = boid.acceleration.plus(force);
    let velocity = boid.velocity.plus(acceleration).limited(MAX_SPEED as int);
    let reached = boid.position.plus(velocity.scaled(tick.delta_time));
    BoidModel {
        acceleration: IntVector::zero(),
        velocity,
        position: wrap(reached, tick),
        color: boid.color,
    }
}

/// The flock after agent `i` alone has taken its step.
pub open spec fn step(boids: Seq<BoidModel>, i: int, tick: Tick) -> Seq<BoidModel> {
    boids.update(i, integrate(boids[i], flock_force(boids, i, tick.repulsor), tick))
}

/// The flock after its first `k` agents have taken their step, one after
/// the other.
pub open spec fn update_prefix(boids: Seq<BoidModel>, k: int, tick: Tick) -> Seq<BoidModel>
    decreases k,
{
    if k <= 0 {
        boids
    } else {
        step(update_prefix(boids, k - 1, tick), k - 1, tick)
    }
}

/// The flock after one time step.
pub open spec fn updated(boids: Seq<BoidModel>, tick: Tick) -> Seq<BoidModel> {
    update_prefix(boids, boids.len() as int, tick)
}

/// The flock after the time steps `ticks`, taken in their order.
pub open spec fn run(boids: Seq<BoidModel>, ticks: Seq<Tick>) -> Seq<BoidModel>
    decreases ticks.len(),
{
    if ticks.len() == 0 {
        boids
    } else {
        updated(run(boids, ticks.drop_last()), ticks.last())
    }
}

/// The agent has taken a step of `tick`: it is no faster than `MAX_SPEED`,
/// it stands inside the border band, and its acceleration is zero.
pub open spec fn settled(boid: BoidModel, tick: Tick) -> bool {
    &&& boid.velocity.norm_squared() <= MAX_SPEED * MAX_SPEED
    &&& tick.holds(boid.position)
    &&& boid.acceleration == IntVector::zero()
}

/// Every coordinate comes out of the boundary rule inside the border band.
pub proof fn lemma_wrap_inside(p: IntVector, tick: Tick)
    requires
        tick.valid(),
    ensures
        tick.holds(wrap(p, tick)),
        0 <= tick.low() <= tick.high() <= POSITION_MAX,
        wrap(p, tick).within(POSITION_MAX as int),
{
}

/// Where the agent would stand after its step without the boundary rule.
pub open spec fn moved(boid: BoidModel, force: IntVector, tick: Tick) -> IntVector {
    let acceleration = boid.acceleration.plus(force);
    let velocity = boid.velocity.plus(acceleration).limited(MAX_SPEED as int);
    boid.position.plus(velocity.scaled(tick.delta_time))
}

/// The boundary rule: an agent that has moved beyond
/// `area_relative_size - border_thick / 2` on an axis stands at exactly
/// `border_thick / 2` on that axis after its step; one that has moved below
/// `border_thick / 2` stands at exactly
/// `area_relative_size - border_thick / 2`; one between the two stands where
/// it has moved to. Each axis is treated by itself.
pub proof fn lemma_boundary_wrap(boid: BoidModel, force: IntVector, tick: Tick)
    requires
        tick.valid(),
    ensures
        ({
            let to = moved(boid, force, tick);
            let at = integrate(boid, force, tick).position;
            let low = tick.border_thick / 2;
            let high = tick.area_relative_size - tick.border_thick / 2;
            &&& to.x > high ==> at.x == low
            &&& to.x < low ==> at.x == high
            &&& low <= to.x <= high ==> at.x == to.x
            &&& to.y > high ==> at.y == low
            &&& to.y < low ==> at.y == high
            &&& low <= to.y <= high ==> at.y == to.y
        }),
{
}

/// An agent in range that takes a step under a bounded force is settled
/// afterwards, and still in range.
pub proof fn lemma_integrate_settles(boid: BoidModel, force: IntVector, tick: Tick)
    requires
        tick.valid(),
    ensures
        settled(integrate(boid, force, tick), tick),
        integrate(boid, force, tick).in_range(),
        integrate(boid, force, tick).color == boid.color,
{
    let acceleration = boid.acceleration.plus(force);
    let velocity = boid.velocity.plus(acceleration).limited(MAX_SPEED as int);
    lemma_limited_norm(boid.velocity.plus(acceleration), MAX_SPEED as int);
    let reached = boid.position.plus(velocity.scaled(tick.delta_time));
    lemma_wrap_inside(reached, tick);
}

/// After the first `k` agents have taken their step the flock has as many
/// agents as before, all in range; the first `k` are settled, the others
/// are as they were; and every agent has kept its colour.
pub proof fn lemma_update_prefix(boids: Seq<BoidModel>, k: int, tick: Tick)
    requires
        all_in_range(boids),
        tick.valid(),
        0 <= k <= boids.len(),
    ensures
        update_prefix(boids, k, tick).len() == boids.len(),
        all_in_range(update_prefix(boids, k, tick)),
        forall|j: int| 0 <= j < k ==> settled(#[trigger] update_prefix(boids, k, tick)[j], tick),
        forall|j: int|
            k <= j < boids.len() ==> #[trigger] update_prefix(boids, k, tick)[j] == boids[j],
        forall|j: int|
            0 <= j < boids.len() ==> (#[trigger] update_prefix(boids, k, tick)[j]).color
                == boids[j].color,
    decreases k,
{
    if k > 0 {
        lemma_update_prefix(boids, k - 1, tick);
        let before = update_prefix(boids, k - 1, tick);
        let force = flock_force(before, k - 1, tick.repulsor);
        assert(before[k - 1].in_range());
        lemma_integrate_settles(before[k - 1], force, tick);
        let after = update_prefix(boids, k, tick);
        assert(after == before.update(k - 1, integrate(before[k - 1], force, tick)));
        assert forall|j: int| 0 <= j < after.len() implies (#[trigger] after[j]).in_range() by {
            if j != k - 1 {
                assert(before[j].in_range());
            }
        }
        assert forall|j: int| 0 <= j < k implies settled(#[trigger] after[j], tick) by {
            if j != k - 1 {
                assert(settled(before[j], tick));
            }
        }
        assert forall|j: int| 0 <= j < boids.len() implies (#[trigger] after[j]).color
            == boids[j].color by {
            assert(before[j].color == boids[j].color);
        }
    }
}

/// The flock as agent `i` finds it when its turn comes in a time step: the
/// agents before it have taken their step, the others have not.
pub open spec fn at_turn(boids: Seq<BoidModel>, i: int, tick: Tick) -> Seq<BoidModel> {
    update_prefix(boids, i, tick)
}

/// The agent that the time step makes of agent `i`: the agent as it was
/// before the time step, integrated under the flock force that it feels in
/// the flock that it finds at its turn.
pub open spec fn updated_agent(boids: Seq<BoidModel>, i: int, tick: Tick) -> BoidModel {
    integrate(boids[i], flock_force(at_turn(boids, i, tick), i, tick.repulsor), tick)
}

/// After the first `k` agents have taken their step, each of them is its
/// `updated_agent`, and the others are as they were.
pub proof fn lemma_update_prefix_agents(boids: Seq<BoidModel>, k: int, tick: Tick)
    requires
        0 <= k <= boids.len(),
    ensures
        update_prefix(boids, k, tick).len() == boids.len(),
        forall|j: int|
            0 <= j < k ==> #[trigger] update_prefix(boids, k, tick)[j] == updated_agent(
                boids,
                j,
                tick,
            ),
        forall|j: int|
            k <= j < boids.len() ==> #[trigger] update_prefix(boids, k, tick)[j] == boids[j],
    decreases k,
{
    if k > 0 {
        lemma_update_prefix_agents(boids, k - 1, tick);
        let before = update_prefix(boids, k - 1, tick);
        let after = update_prefix(boids, k, tick);
        assert(after == step(before, k - 1, tick));
        assert(before[k - 1] == boids[k - 1]);
        assert(after[k - 1] == updated_agent(boids, k - 1, tick));
        assert forall|j: int| 0 <= j < k implies #[trigger] after[j] == updated_agent(
            boids,
            j,
            tick,
        ) by {
            if j != k - 1 {
                assert(after[j] == before[j]);
            }
        }
        assert forall|j: int| k <= j < boids.len() implies #[trigger] after[j] == boids[j] by {
            assert(after[j] == before[j]);
        }
    }
}

/// One agent through a whole time step: agent `i` of the flock after the
/// time step is its `updated_agent`. When its turn comes the agent itself
/// is still as it was before the time step, while the agents before it
/// have moved.
pub proof fn lemma_updated_agent(boids: Seq<BoidModel>, i: int, tick: Tick)
    requires
        0 <= i < boids.len(),
    ensures
        updated(boids, tick).len() == boids.len(),
        at_turn(boids, i, tick).len() == boids.len(),
        at_turn(boids, i, tick)[i] == boids[i],
        forall|j: int| i <= j < boids.len() ==> #[trigger] at_turn(boids, i, tick)[j] == boids[j],
        updated(boids, tick)[i] == updated_agent(boids, i, tick),
{
    lemma_update_prefix_agents(boids, boids.len() as int, tick);
    lemma_update_prefix_agents(boids, i, tick);
}

/// The boundary rule through a whole time step: an agent that, at its
/// turn, has moved beyond `area_relative_size - border_thick / 2` on an axis
/// stands at exactly `border_thick / 2` on that axis after the time step;
/// one that has moved below `border_thick / 2` stands at exactly
/// `area_relative_size - border_thick / 2`; one between the two stands where
/// it has moved to. Each axis is treated by itself.
pub proof fn lemma_updated_boundary_wrap(boids: Seq<BoidModel>, i: int, tick: Tick)
    requires
        tick.valid(),
        0 <= i < boids.len(),
    ensures
        ({
            let force = flock_force(at_turn(boids, i, tick), i, tick.repulsor);
            let to = moved(boids[i], force, tick);
            let at = updated(boids, tick)[i].position;
            let low = tick.border_thick / 2;
            let high = tick.area_relative_size - tick.border_thick / 2;
            &&& to.x > high ==> at.x == low
            &&& to.x < low ==> at.x == high
            &&& low <= to.x <= high ==> at.x == to.x
            &&& to.y > high ==> at.y == low
            &&& to.y < low ==> at.y == high
            &&& low <= to.y <= high ==> at.y == to.y
        }),
{
    lemma_updated_agent(boids, i, tick);
    lemma_boundary_wrap(
        boids[i],
        flock_force(at_turn(boids, i, tick), i, tick.repulsor),
        tick,
    );
}

/// The free course through a whole time step: an agent that is alone when
/// its turn comes, with no acceleration left over and no faster than
/// `MAX_SPEED`, has kept its velocity after the time step and has moved
/// along it in a straight line, up to the boundary rule. An agent that is
/// alone before the time step need not be alone at its turn, since the
/// agents before it have moved by then; the first agent of the flock is.
pub proof fn lemma_updated_isolated_agent_keeps_course(
    boids: Seq<BoidModel>,
    i: int,
    tick: Tick,
)
    requires
        0 <= i < boids.len(),
        isolated(at_turn(boids, i, tick), i, tick.repulsor),
        boids[i].acceleration == IntVector::zero(),
        boids[i].velocity.norm_squared() <= MAX_SPEED * MAX_SPEED,
    ensures
        updated(boids, tick)[i].velocity == boids[i].velocity,
        updated(boids, tick)[i].position == wrap(
            boids[i].position.plus(boids[i].velocity.scaled(tick.delta_time)),
            tick,
        ),
        i == 0 ==> at_turn(boids, i, tick) == boids,
{
    lemma_updated_agent(boids, i, tick);
    lemma_isolated_agent_keeps_course(at_turn(boids, i, tick), i, tick);
}

/// The displacement of an agent that is no faster than `MAX_SPEED`, over a
/// time step that is not too long, can be added to any position in range.
pub proof fn lemma_displacement_bound(velocity: IntVector, delta_time: int)
    requires
        velocity.norm_squared() <= MAX_SPEED * MAX_SPEED,
        0 <= delta_time <= DELTA_TIME_MAX,
    ensures
        velocity.scaled(delta_time).within(200 * DELTA_TIME_MAX),
{
    lemma_component_bound(velocity, MAX_SPEED as int);
    lemma_scale_bound(
        velocity.x,
        delta_time,
        MAX_SPEED as int,
        DELTA_TIME_MAX as int,
        200 * DELTA_TIME_MAX,
    );
    lemma_scale_bound(
        velocity.y,
        delta_time,
        MAX_SPEED as int,
        DELTA_TIME_MAX as int,
        200 * DELTA_TIME_MAX,
    );
}

/// Every time step of the sequence is valid.
pub open spec fn all_valid(ticks: Seq<Tick>) -> bool {
    forall|k: int| 0 <= k < ticks.len() ==> (#[trigger] ticks[k]).valid()
}

/// A flock in range stays in range and keeps its size over any sequence of
/// valid time steps, and after the last of them every agent is settled.
pub proof fn lemma_run_settles(boids: Seq<BoidModel>, ticks: Seq<Tick>)
    requires
        all_in_range(boids),
        all_valid(ticks),
    ensures
        run(boids, ticks).len() == boids.len(),
        all_in_range(run(boids, ticks)),
        ticks.len() > 0 ==> forall|j: int|
            0 <= j < boids.len() ==> settled(#[trigger] run(boids, ticks)[j], ticks.last()),
    decreases ticks.len(),
{
    if ticks.len() > 0 {
        let earlier = ticks.drop_last();
        assert forall|k: int| 0 <= k < earlier.len() implies (#[trigger] earlier[k]).valid() by {
            assert(earlier[k] == ticks[k]);
        }
        lemma_run_settles(boids, earlier);
        let before = run(boids, earlier);
        lemma_update_prefix(before, before.len() as int, ticks.last());
    }
}

/// The speed bound: after every time step, however many were taken before
/// and whatever they were given, no agent is faster than `MAX_SPEED`.
pub proof fn lemma_speed_bound(boids: Seq<BoidModel>, ticks: Seq<Tick>, j: int)
    requires
        all_in_range(boids),
        all_valid(ticks),
        ticks.len() > 0,
        0 <= j < boids.len(),
    ensures
        run(boids, ticks)[j].velocity.norm_squared() <= MAX_SPEED * MAX_SPEED,
        run(boids, ticks)[j].acceleration == IntVector::zero(),
{
    lemma_run_settles(boids, ticks);
}

/// An agent under no force, with no acceleration left over and no faster
/// than `MAX_SPEED`, keeps its velocity and moves along it in a straight
/// line, up to the boundary rule.
pub proof fn lemma_free_agent_keeps_course(boid: BoidModel, tick: Tick)
    requires
        boid.acceleration == IntVector::zero(),
        boid.velocity.norm_squared() <= MAX_SPEED * MAX_SPEED,
    ensures
        integrate(boid, IntVector::zero(), tick).velocity == boid.velocity,
        integrate(boid, IntVector::zero(), tick).position == wrap(
            boid.position.plus(boid.velocity.scaled(tick.delta_time)),
            tick,
        ),
{
}

/// An agent that is alone when its turn comes, with no acceleration left
/// over and no faster than `MAX_SPEED`, takes its step as a free agent: it
/// keeps its velocity and moves along it in a straight line, up to the
/// boundary rule.
pub proof fn lemma_isolated_agent_keeps_course(boids: Seq<BoidModel>, i: int, tick: Tick)
    requires
        0 <= i < boids.len(),
        isolated(boids, i, tick.repulsor),
        boids[i].acceleration == IntVector::zero(),
        boids[i].velocity.norm_squared() <= MAX_SPEED * MAX_SPEED,
    ensures
        flock_force(boids, i, tick.repulsor) == IntVector::zero(),
        step(boids, i, tick)[i].velocity == boids[i].velocity,
        step(boids, i, tick)[i].position == wrap(
            boids[i].position.plus(boids[i].velocity.scaled(tick.delta_time)),
            tick,
        ),
{
    lemma_isolated_agent_is_free(boids, i, tick.repulsor);
    lemma_free_agent_keeps_course(boids[i], tick);
}

/// Determinism: two flocks that start in the same state and are given the
/// same time steps are in the same state after them.
pub proof fn lemma_same_start_same_course(
    first: Seq<BoidModel>,
    second: Seq<BoidModel>,
    first_ticks: Seq<Tick>,
    second_ticks: Seq<Tick>,
)
    requires
        first == second,
        first_ticks == second_ticks,
    ensures
        run(first, first_ticks) == run(second, second_ticks),
{
}

} // verus!
