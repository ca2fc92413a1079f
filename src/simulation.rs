use vstd::prelude::*;

use crate::geometry::{
    bounded, dot, displacement, displacement_of, in_limits, is_zero, shorter_than, spec_add, spec_neg,
    spec_sub, spec_zero, Vector3, COORD_LIMIT, MILLI,
};
use crate::predator::{boosted_speed, Predator, PREDATOR_SPEED};
use crate::random::{random_i64, random_usize};
use crate::wanderer::{
    is_mutation_colour, Wanderer, MAX_DT_US, MICROS_PER_SECOND,
    OFFSPRING_TIMER_MAX, OFFSPRING_TIMER_MIN, WANDERER_SPEED,
};

verus! {

/// Half extents of the plane that wanderers roam.
pub const WIDTH: i64 = 600_000;
pub const HEIGHT: i64 = 300_000;

/// Size of the first generation.
pub const STARTING_WANDERERS: usize = 20;

/// How far to the right of its parent an offspring appears.
pub const OFFSPRING_OFFSET_X: i64 = 500;

/// Upper bounds that keep the fixed-point arithmetic exact.
pub const MAX_SPEED: u64 = 600_000;
pub const MAX_STEP: i64 = 60_000_000;
pub const ROOM_LIMIT: i64 = 500_000_000_000;
pub const POPULATION_LIMIT: usize = 1_000_000_000;
pub const ID_LIMIT: u64 = 18_000_000_000_000_000_000;

/// Position, heading and speed of any agent. The heading is stored as a
/// vector of any length: the agent moves along the unit vector in its
/// direction (see `displacement`), or stays put when it is zero.
#[derive(Clone, Copy, Debug, PartialEq, Eq, Structural)]
pub struct Agent {
    pub position: Vector3,
    pub direction: Vector3,
    pub speed: u64,
}

/// One live wanderer in the store.
#[derive(Clone, Copy, Debug, PartialEq, Eq, Structural)]
pub struct WandererEntity {
    pub id: u64,
    pub agent: Agent,
    pub wanderer: Wanderer,
}

/// The whole simulation: the live wanderers, in order of creation, and the
/// one predator.
pub struct World {
    pub wanderers: Vec<WandererEntity>,
    pub predator_agent: Agent,
    pub predator: Predator,
    pub next_id: u64,
}

/// The wanderers' plane, `[-WIDTH, WIDTH] x [-HEIGHT, HEIGHT]`.
pub open spec fn in_plane(v: Vector3) -> bool {
    -WIDTH <= v.x <= WIDTH && -HEIGHT <= v.y <= HEIGHT && v.z == 0
}

/// Distance covered at `speed` in `dt` microseconds.
pub open spec fn step_of(speed: int, dt: int) -> int {
    (speed * dt) / (MICROS_PER_SECOND as int)
}

impl Agent {
    pub open spec fn wf(self) -> bool {
        in_limits(self.position) && bounded(self.direction, 2 * COORD_LIMIT) && self.speed
            <= MAX_SPEED
    }

    /// The agent after moving for `dt` microseconds.
    pub open spec fn advanced(self, dt: int) -> Agent {
        Agent {
            position: spec_add(
                self.position,
                displacement(self.direction, step_of(self.speed as int, dt)),
            ),
            ..self
        }
    }
}

impl WandererEntity {
    pub open spec fn wf(self) -> bool {
        &&& self.agent.wf()
        &&& self.agent.speed == WANDERER_SPEED
        &&& in_plane(self.wanderer.target_pos)
        &&& self.wanderer.offspring_timer.wf()
    }

    pub open spec fn to_target(self) -> Vector3 {
        spec_sub(self.wanderer.target_pos, self.agent.position)
    }

    /// Whether the wanderer has reached its destination.
    pub open spec fn arrived(self) -> bool {
        shorter_than(self.to_target(), crate::wanderer::ARRIVAL_DISTANCE as int)
    }

    /// The heading a wanderer takes with the predator at `predator_pos`: away
    /// from the predator when it is within the scare distance, else toward the
    /// destination.
    pub open spec fn heading(self, predator_pos: Vector3) -> Vector3 {
        let to_predator = spec_sub(predator_pos, self.agent.position);
        if shorter_than(to_predator, crate::wanderer::WANDERER_SCARE_DISTANCE as int) {
            spec_neg(to_predator)
        } else {
            self.to_target()
        }
    }

    /// Whether `self` is as `startup` makes the first generation: in the
    /// plane, heading for its destination, of the default colour, with a
    /// fresh timer of a whole number of seconds in the offspring range.
    pub open spec fn first_generation(self) -> bool {
        &&& in_plane(self.agent.position)
        &&& self.agent.direction == self.to_target()
        &&& self.agent.speed == WANDERER_SPEED
        &&& self.wanderer.colour == crate::wanderer::DEFAULT_COLOUR
        &&& self.wanderer.offspring_timer.elapsed_us == 0
        &&& OFFSPRING_TIMER_MIN * MICROS_PER_SECOND <= self.wanderer.offspring_timer.period_us
            <= OFFSPRING_TIMER_MAX * MICROS_PER_SECOND
        &&& self.wanderer.offspring_timer.period_us % MICROS_PER_SECOND == 0
    }

    /// Whether `self` is a newborn of `parent`.
    pub open spec fn is_offspring_of(self, parent: WandererEntity) -> bool {
        &&& self.agent.position == spec_add(
            parent.agent.position,
            Vector3 { x: OFFSPRING_OFFSET_X as i64, y: 0, z: 0 },
        )
        &&& self.agent.direction == self.to_target()
        &&& self.agent.speed == WANDERER_SPEED
        &&& in_plane(self.wanderer.target_pos)
        &&& self.wanderer.offspring_timer.elapsed_us == 0
        &&& OFFSPRING_TIMER_MIN * MICROS_PER_SECOND <= self.wanderer.offspring_timer.period_us
            <= OFFSPRING_TIMER_MAX * MICROS_PER_SECOND
        &&& self.wanderer.offspring_timer.period_us % MICROS_PER_SECOND == 0
        &&& (self.wanderer.colour == parent.wanderer.colour || is_mutation_colour(
            self.wanderer.colour,
        ))
    }
}

/// The number of wanderers in `s` whose timer completes a period in `dt`.
pub open spec fn count_finishing(s: Seq<WandererEntity>, dt: int) -> nat
    decreases s.len(),
{
    if s.len() == 0 {
        0
    } else {
        count_finishing(s.drop_last(), dt) + if s.last().wanderer.offspring_timer.finishes(dt) {
            1nat
        } else {
            0nat
        }
    }
}

impl World {
    pub open spec fn ids_unique(self) -> bool {
        forall|i: int, j: int|
            0 <= i < j < self.wanderers@.len() ==> self.wanderers@[i].id
                != self.wanderers@[j].id
    }

    /// The store's invariant.
    pub open spec fn wf(self) -> bool {
        &&& forall|i: int|
            0 <= i < self.wanderers@.len() ==> (#[trigger] self.wanderers@[i]).wf()
                && self.wanderers@[i].id < self.next_id
        &&& self.ids_unique()
        &&& self.predator_agent.wf()
    }

    /// Room for one more tick: positions far from the fixed-point limits,
    /// and enough ids and slots for the population to double.
    pub open spec fn roomy(self) -> bool {
        &&& forall|i: int|
            0 <= i < self.wanderers@.len() ==> bounded(
                (#[trigger] self.wanderers@[i]).agent.position,
                ROOM_LIMIT as int,
            )
        &&& bounded(self.predator_agent.position, ROOM_LIMIT as int)
        &&& self.wanderers@.len() <= POPULATION_LIMIT
        &&& self.next_id <= ID_LIMIT
    }

    /// Whether a wanderer with this id is live.
    pub open spec fn live(self, id: u64) -> bool {
        exists|i: int| 0 <= i < self.wanderers@.len() && (#[trigger] self.wanderers@[i]).id == id
    }

    /// An empty world with its predator.
    pub fn new() -> (r: World)
        ensures
            r.wf(),
            r.roomy(),
            r.wanderers@.len() == 0,
            r.next_id == 0,
            r.predator.target is None,
            r.predator_agent == (Agent {
                position: spec_zero(),
                direction: spec_zero(),
                speed: PREDATOR_SPEED,
            }),
    {
        let (predator_agent, predator) = crate::predator::spawn_predator();
        World { wanderers: Vec::new(), predator_agent, predator, next_id: 0 }
    }

    /// Index of the live wanderer with this id.
    pub fn index_of(&self, id: u64) -> (r: Option<usize>)
        requires
            self.wf(),
        ensures
            r is None ==> !self.live(id),
            r matches Some(i) ==> i < self.wanderers@.len() && self.wanderers@[i as int].id == id,
    {
        let mut i: usize = 0;
        while i < self.wanderers.len()
            invariant
                i <= self.wanderers@.len(),
                forall|k: int| 0 <= k < i ==> (#[trigger] self.wanderers@[k]).id != id,
            decreases self.wanderers@.len() - i,
        {
            if self.wanderers[i].id == id {
                return Some(i);
            }
            i += 1;
        }
        None
    }

    /// Whether `roomy` holds.
    pub fn ready_for_tick(&self) -> (r: bool)
        ensures
            r == self.roomy(),
    {
        if self.wanderers.len() > POPULATION_LIMIT || self.next_id > ID_LIMIT {
            return false;
        }
        if !within(&self.predator_agent.position, ROOM_LIMIT) {
            return false;
        }
        let mut i: usize = 0;
        while i < self.wanderers.len()
            invariant
                i <= self.wanderers@.len(),
                forall|k: int|
                    0 <= k < i ==> bounded(
                        (#[trigger] self.wanderers@[k]).agent.position,
                        ROOM_LIMIT as int,
                    ),
            decreases self.wanderers@.len() - i,
        {
            if !within(&self.wanderers[i].agent.position, ROOM_LIMIT) {
                return false;
            }
            i += 1;
        }
        true
    }
}

fn within(v: &Vector3, b: i64) -> (r: bool)
    requires
        b >= 0,
    ensures
        r == bounded(*v, b as int),
{
    -b <= v.x && v.x <= b && -b <= v.y && v.y <= b && -b <= v.z && v.z <= b
}

/// A random point of `[-width, width) x [-height, height)`; an axis of
/// zero extent gives 0.
pub fn get_random_pos_within(width: i64, height: i64) -> (r: Vector3)
    requires
        0 <= width <= COORD_LIMIT,
        0 <= height <= COORD_LIMIT,
    ensures
        width == 0 ==> r.x == 0,
        width > 0 ==> -width <= r.x < width,
        height == 0 ==> r.y == 0,
        height > 0 ==> -height <= r.y < height,
        r.z == 0,
{
    Vector3 { x: random_coordinate(width), y: random_coordinate(height), z: 0 }
}

/// A random coordinate in `[-extent, extent)`, or 0 for a zero extent.
fn random_coordinate(extent: i64) -> (r: i64)
    requires
        0 <= extent <= COORD_LIMIT,
    ensures
        extent == 0 ==> r == 0,
        extent > 0 ==> -extent <= r < extent,
{
    if extent == 0 {
        0
    } else {
        random_i64(-extent, extent)
    }
}

/// Every stored position lies within `b`.
pub open spec fn positions_within(w: World, b: int) -> bool {
    &&& forall|i: int|
        0 <= i < w.wanderers@.len() ==> bounded((#[trigger] w.wanderers@[i]).agent.position, b)
    &&& bounded(w.predator_agent.position, b)
}

proof fn lemma_count_step(s: Seq<WandererEntity>, i: int, dt: int)
    requires
        0 <= i < s.len(),
    ensures
        count_finishing(s.take(i + 1), dt) == count_finishing(s.take(i), dt) + if s[i].wanderer.offspring_timer.finishes(dt) {
            1nat
        } else {
            0nat
        },
        count_finishing(s.take(i), dt) <= i,
    decreases i,
{
    assert(s.take(i + 1).drop_last() =~= s.take(i));
    if i > 0 {
        lemma_count_step(s, i - 1, dt);
    } else {
        assert(s.take(0).len() == 0);
    }
}

proof fn lemma_count_grows(s: Seq<WandererEntity>, k: int, j: int, dt: int)
    requires
        0 <= k < j <= s.len(),
        s[k].wanderer.offspring_timer.finishes(dt),
    ensures
        count_finishing(s.take(k), dt) + 1 <= count_finishing(s.take(j), dt),
    decreases j - k,
{
    lemma_count_step(s, j - 1, dt);
    if k < j - 1 {
        lemma_count_grows(s, k, j - 1, dt);
    }
}

impl World {
    /// Navigation and flight: a wanderer that has arrived picks a new
    /// destination; then it heads away from the predator when scared, else
    /// toward its destination as it was before this tick.
    pub fn update_wanderers(&mut self)
        requires
            old(self).wf(),
        ensures
            final(self).wf(),
            old(self).navigated(*final(self)),
    {
        let predator_pos = self.predator_agent.position;
        let n = self.wanderers.len();
        let mut i: usize = 0;
        while i < n
            invariant
                n == self.wanderers@.len() == old(self).wanderers@.len(),
                0 <= i <= n,
                old(self).wf(),
                predator_pos == old(self).predator_agent.position,
                self.predator_agent == old(self).predator_agent,
                self.predator == old(self).predator,
                self.next_id == old(self).next_id,
                forall|k: int| i <= k < n ==> self.wanderers@[k] == old(self).wanderers@[k],
                forall|k: int|
                    0 <= k < n ==> (#[trigger] self.wanderers@[k]).id == old(self).wanderers@[k].id && self.wanderers@[k].wf(),
                forall|k: int|
                    0 <= k < i ==> {
                        let before = old(self).wanderers@[k];
                        let after = #[trigger] self.wanderers@[k];
                        &&& after.agent == (Agent {
                            direction: before.heading(old(self).predator_agent.position),
                            ..before.agent
                        })
                        &&& after.wanderer.offspring_timer == before.wanderer.offspring_timer
                        &&& after.wanderer.colour == before.wanderer.colour
                        &&& if before.arrived() {
                            in_plane(after.wanderer.target_pos)
                        } else {
                            after.wanderer.target_pos == before.wanderer.target_pos
                        }
                    },
            decreases n - i,
        {
            let mut e = self.wanderers[i];
            assert(e.wf());
            let to_target = e.wanderer.target_pos.sub(&e.agent.position);
            if to_target.shorter_than(crate::wanderer::ARRIVAL_DISTANCE) {
                e.wanderer.target_pos = get_random_pos_within(WIDTH, HEIGHT);
            }
            let to_predator = predator_pos.sub(&e.agent.position);
            if to_predator.shorter_than(crate::wanderer::WANDERER_SCARE_DISTANCE) {
                e.agent.direction = to_predator.neg();
            } else {
                e.agent.direction = to_target;
            }
            self.wanderers[i] = e;
            i += 1;
        }
        assert(self.wf());
    }

    /// Reproduction: ticks every wanderer's timer by `dt_us`, and appends one
    /// offspring for each wanderer whose timer completed a period, in the
    /// order of the parents.
    pub fn spawn_wanderers(&mut self, dt_us: u64)
        requires
            old(self).wf(),
            dt_us <= MAX_DT_US,
            positions_within(*old(self), ROOM_LIMIT as int),
            old(self).wanderers@.len() <= POPULATION_LIMIT,
            old(self).next_id <= ID_LIMIT,
        ensures
            final(self).wf(),
            old(self).reproduced(*final(self), dt_us as int),
            positions_within(*final(self), ROOM_LIMIT + MILLI),
    {
        let ghost dt = dt_us as int;
        let ghost before = old(self).wanderers@;
        let n = self.wanderers.len();
        let mut i: usize = 0;
        assert(before.take(0).len() == 0);
        while i < n
            invariant
                n == before.len(),
                before == old(self).wanderers@,
                dt == dt_us,
                dt_us <= MAX_DT_US,
                0 <= i <= n,
                n <= POPULATION_LIMIT,
                old(self).next_id <= ID_LIMIT,
                positions_within(*old(self), ROOM_LIMIT as int),
                count_finishing(before.take(i as int), dt) <= i,
                self.wanderers@.len() == n + count_finishing(before.take(i as int), dt),
                self.next_id == old(self).next_id + count_finishing(before.take(i as int), dt),
                self.wf(),
                self.predator_agent == old(self).predator_agent,
                self.predator == old(self).predator,
                forall|k: int| i <= k < n ==> self.wanderers@[k] == before[k],
                forall|k: int|
                    0 <= k < i ==> #[trigger] self.wanderers@[k] == (WandererEntity {
                        wanderer: Wanderer {
                            offspring_timer: before[k].wanderer.offspring_timer.ticked(dt),
                            ..before[k].wanderer
                        },
                        ..before[k]
                    }),
                forall|k: int|
                    0 <= k < i && (#[trigger] before[k]).wanderer.offspring_timer.finishes(dt)
                        ==> self.wanderers@[n as int + count_finishing(
                        before.take(k),
                        dt,
                    )].is_offspring_of(before[k]),
                forall|k: int|
                    0 <= k < self.wanderers@.len() ==> bounded(
                        (#[trigger] self.wanderers@[k]).agent.position,
                        ROOM_LIMIT + MILLI,
                    ),
            decreases n - i,
        {
            proof {
                lemma_count_step(before, i as int, dt);
            }
            let mut e = self.wanderers[i];
            assert(e == before[i as int]);
            assert(bounded(before[i as int].agent.position, ROOM_LIMIT as int));
            let finished = e.wanderer.offspring_timer.tick(dt_us);
            self.wanderers[i] = e;
            proof {
                assert forall|k: int|
                    0 <= k < i && (#[trigger] before[k]).wanderer.offspring_timer.finishes(
                        dt,
                    ) implies count_finishing(before.take(k), dt) + 1 <= count_finishing(
                    before.take(i as int),
                    dt,
                ) by {
                    lemma_count_grows(before, k, i as int, dt);
                }
            }
            if finished {
                let spawn_pos = e.agent.position.add(&Vector3::new(OFFSPRING_OFFSET_X, 0, 0));
                let target_pos = get_random_pos_within(WIDTH, HEIGHT);
                let count = crate::wanderer::generate_offspring_timer_count();
                let colour = crate::wanderer::get_colour_for_wanderer(e.wanderer.colour);
                crate::wanderer::spawn_wanderer(self, spawn_pos, target_pos, count, colour);
            }
            i += 1;
        }
        assert(before.take(n as int) =~= before);
    }
}

impl World {
    /// Navigation and flight, see `WandererEntity::heading`; a wanderer that
    /// has arrived gets a new destination somewhere in the plane.
    pub open spec fn navigated(self, after: World) -> bool {
        &&& after.wanderers@.len() == self.wanderers@.len()
        &&& forall|i: int|
            0 <= i < self.wanderers@.len() ==> {
                let before = self.wanderers@[i];
                let now = #[trigger] after.wanderers@[i];
                &&& now.id == before.id
                &&& now.agent == (Agent {
                    direction: before.heading(self.predator_agent.position),
                    ..before.agent
                })
                &&& now.wanderer.offspring_timer == before.wanderer.offspring_timer
                &&& now.wanderer.colour == before.wanderer.colour
                &&& if before.arrived() {
                    in_plane(now.wanderer.target_pos)
                } else {
                    now.wanderer.target_pos == before.wanderer.target_pos
                }
            }
        &&& after.predator_agent == self.predator_agent
        &&& after.predator == self.predator
        &&& after.next_id == self.next_id
    }

    /// Reproduction over `dt`: every timer ticks, and each wanderer whose
    /// timer completes a period gets one offspring, appended in the order of
    /// the parents.
    pub open spec fn reproduced(self, after: World, dt: int) -> bool {
        let before = self.wanderers@;
        let now = after.wanderers@;
        let n = before.len();
        let born = count_finishing(before, dt);
        &&& now.len() == n + born
        &&& after.next_id == self.next_id + born
        &&& forall|i: int|
            0 <= i < n ==> #[trigger] now[i] == (WandererEntity {
                wanderer: Wanderer {
                    offspring_timer: before[i].wanderer.offspring_timer.ticked(dt),
                    ..before[i].wanderer
                },
                ..before[i]
            })
        &&& forall|i: int|
            0 <= i < n && (#[trigger] before[i]).wanderer.offspring_timer.finishes(dt)
                ==> now[n + count_finishing(before.take(i), dt) as int].is_offspring_of(before[i])
        &&& after.predator_agent == self.predator_agent
        &&& after.predator == self.predator
    }

    /// The predator's speed set from the boost signal, nothing else changed.
    pub open spec fn boosted(self, after: World, boost: bool) -> bool {
        &&& after.predator_agent == (Agent { speed: boosted_speed(boost), ..self.predator_agent })
        &&& after.wanderers@ == self.wanderers@
        &&& after.predator == self.predator
        &&& after.next_id == self.next_id
    }

    /// Every agent advanced by `dt`, see `Agent::advanced`.
    pub open spec fn moved(self, after: World, dt: int) -> bool {
        &&& after.wanderers@.len() == self.wanderers@.len()
        &&& forall|i: int|
            0 <= i < self.wanderers@.len() ==> #[trigger] after.wanderers@[i] == (WandererEntity {
                agent: self.wanderers@[i].agent.advanced(dt),
                ..self.wanderers@[i]
            })
        &&& after.predator_agent == self.predator_agent.advanced(dt)
        &&& after.predator == self.predator
        &&& after.next_id == self.next_id
    }

    /// The steps of one tick, in order, through the given intermediate
    /// worlds.
    pub open spec fn tick_steps(
        self,
        navigated: World,
        reproduced: World,
        chosen: World,
        hunted: World,
        boosted: World,
        after: World,
        dt: int,
        boost: bool,
    ) -> bool {
        &&& self.navigated(navigated)
        &&& navigated.reproduced(reproduced, dt)
        &&& reproduced.chose_target(chosen)
        &&& chosen.hunted(hunted)
        &&& hunted.boosted(boosted, boost)
        &&& boosted.moved(after, dt)
    }

    /// `after` is what one tick of `dt` with the given boost signal makes of
    /// `self`.
    pub open spec fn ticked(self, after: World, dt: int, boost: bool) -> bool {
        exists|a: World, b: World, c: World, d: World, e: World|
            #[trigger] self.tick_steps(a, b, c, d, e, after, dt, boost)
    }
}

/// A random element of `list`, or `None` when it is empty.
pub fn select_from_list_at_random(list: &Vec<u64>) -> (r: Option<u64>)
    ensures
        r is None <==> list@.len() == 0,
        r matches Some(x) ==> list@.contains(x),
{
    if list.len() == 0 {
        None
    } else {
        let i = random_usize(0, list.len());
        Some(list[i])
    }
}

impl World {
    /// The index of the live wanderer with this id.
    pub open spec fn index_spec(self, id: u64) -> int {
        choose|i: int| 0 <= i < self.wanderers@.len() && #[trigger] self.wanderers@[i].id == id
    }

    /// Target selection: a predator without a target takes a live wanderer,
    /// if there is one; one with a target keeps it.
    pub open spec fn chose_target(self, after: World) -> bool {
        &&& after.wanderers@ == self.wanderers@
        &&& after.predator_agent == self.predator_agent
        &&& after.next_id == self.next_id
        &&& match self.predator.target {
            Some(id) => after.predator.target == Some(id),
            None => match after.predator.target {
                None => self.wanderers@.len() == 0,
                Some(id) => self.live(id),
            },
        }
    }

    /// One hunting step. Idle: the predator stops. Hunting a wanderer that
    /// is gone or of the ignored colour: it gives the target up. Hunting one
    /// within the capture distance: the wanderer is removed and the target
    /// given up. Otherwise: it heads for the target.
    pub open spec fn hunted(self, after: World) -> bool {
        let p = self.predator_agent;
        &&& after.next_id == self.next_id
        &&& match self.predator.target {
            None => {
                &&& after.predator_agent == (Agent { direction: spec_zero(), ..p })
                &&& after.predator.target is None
                &&& after.wanderers@ == self.wanderers@
            },
            Some(id) => if !self.live(id) {
                &&& after.predator.target is None
                &&& after.predator_agent == p
                &&& after.wanderers@ == self.wanderers@
            } else {
                let i = self.index_spec(id);
                let prey = self.wanderers@[i];
                let to_prey = spec_sub(prey.agent.position, p.position);
                if prey.wanderer.colour == crate::predator::COLOUR_PREDATOR_IGNORES {
                    &&& after.predator.target is None
                    &&& after.predator_agent == p
                    &&& after.wanderers@ == self.wanderers@
                } else if shorter_than(to_prey, crate::predator::CAPTURE_DISTANCE as int) {
                    &&& after.predator.target is None
                    &&& after.predator_agent == p
                    &&& after.wanderers@ == self.wanderers@.remove(i)
                } else {
                    &&& after.predator.target == Some(id)
                    &&& after.predator_agent == (Agent { direction: to_prey, ..p })
                    &&& after.wanderers@ == self.wanderers@
                }
            },
        }
    }

    /// Gives the predator a random live wanderer as target when it has none.
    pub fn choose_target_for_predator(&mut self)
        requires
            old(self).wf(),
        ensures
            final(self).wf(),
            old(self).chose_target(*final(self)),
    {
        if self.predator.target.is_none() {
            let mut ids: Vec<u64> = Vec::new();
            let mut i: usize = 0;
            while i < self.wanderers.len()
                invariant
                    i <= self.wanderers@.len(),
                    ids@.len() == i,
                    forall|k: int| 0 <= k < i ==> ids@[k] == self.wanderers@[k].id,
                decreases self.wanderers@.len() - i,
            {
                ids.push(self.wanderers[i].id);
                i += 1;
            }
            let chosen = select_from_list_at_random(&ids);
            proof {
                if let Some(id) = chosen {
                    let k = choose|k: int| 0 <= k < ids@.len() && ids@[k] == id;
                    assert(self.wanderers@[k].id == id);
                }
            }
            self.predator.target = chosen;
        }
    }

    /// Steers the predator toward its target, eats the target when close
    /// enough, and drops a target that is gone or ignored; see `hunted`.
    pub fn update_predators(&mut self)
        requires
            old(self).wf(),
        ensures
            final(self).wf(),
            old(self).hunted(*final(self)),
    {
        match self.predator.target {
            None => {
                self.predator_agent.direction = Vector3::zero();
            },
            Some(id) => {
                match self.index_of(id) {
                    None => {
                        self.predator.target = None;
                    },
                    Some(i) => {
                        let prey = self.wanderers[i];
                        proof {
                            let j = self.index_spec(id);
                            assert(self.live(id));
                            assert(self.wanderers@[j].id == id);
                            assert(j == i as int);
                        }
                        if prey.wanderer.colour == crate::predator::COLOUR_PREDATOR_IGNORES {
                            self.predator.target = None;
                        } else {
                            assert(prey.wf());
                            let to_prey = prey.agent.position.sub(&self.predator_agent.position);
                            if to_prey.shorter_than(crate::predator::CAPTURE_DISTANCE) {
                                self.wanderers.remove(i);
                                self.predator.target = None;
                            } else {
                                self.predator_agent.direction = to_prey;
                            }
                        }
                    },
                }
            },
        }
    }

    /// Sets the predator's speed for this tick from the boost signal.
    pub fn boost_predator_speed(&mut self, boost: bool)
        requires
            old(self).wf(),
        ensures
            final(self).wf(),
            old(self).boosted(*final(self), boost),
    {
        if boost {
            self.predator_agent.speed = PREDATOR_SPEED * crate::predator::PREDATOR_BOOST_MODIFIER;
        } else {
            self.predator_agent.speed = PREDATOR_SPEED;
        }
    }
}

impl Agent {
    /// Moves the agent along its heading at its speed for `dt_us`
    /// microseconds.
    pub fn advance(&self, dt_us: u64) -> (r: Agent)
        requires
            self.wf(),
            dt_us <= MAX_DT_US,
            bounded(self.position, COORD_LIMIT - MAX_STEP),
        ensures
            r == self.advanced(dt_us as int),
            r.wf(),
    {
        assert(self.speed * dt_us <= MAX_SPEED * MAX_DT_US) by (nonlinear_arith)
            requires self.speed <= MAX_SPEED, dt_us <= MAX_DT_US;
        let step = self.speed * dt_us / MICROS_PER_SECOND;
        assert(step <= MAX_STEP);
        let d = displacement_of(&self.direction, step);
        Agent { position: self.position.add(&d), ..*self }
    }
}

impl World {
    /// Movement: every agent moves along its heading, see `Agent::advanced`.
    pub fn move_movables(&mut self, dt_us: u64)
        requires
            old(self).wf(),
            dt_us <= MAX_DT_US,
            positions_within(*old(self), COORD_LIMIT - MAX_STEP),
        ensures
            final(self).wf(),
            old(self).moved(*final(self), dt_us as int),
    {
        let n = self.wanderers.len();
        let mut i: usize = 0;
        while i < n
            invariant
                n == self.wanderers@.len() == old(self).wanderers@.len(),
                0 <= i <= n,
                dt_us <= MAX_DT_US,
                old(self).wf(),
                positions_within(*old(self), COORD_LIMIT - MAX_STEP),
                self.predator_agent == old(self).predator_agent,
                self.predator == old(self).predator,
                self.next_id == old(self).next_id,
                forall|k: int| i <= k < n ==> self.wanderers@[k] == old(self).wanderers@[k],
                forall|k: int|
                    0 <= k < i ==> #[trigger] self.wanderers@[k] == (WandererEntity {
                        agent: old(self).wanderers@[k].agent.advanced(dt_us as int),
                        ..old(self).wanderers@[k]
                    }),
                forall|k: int| 0 <= k < n ==> (#[trigger] self.wanderers@[k]).wf(),
            decreases n - i,
        {
            let mut e = self.wanderers[i];
            assert(e == old(self).wanderers@[i as int]);
            assert(e.wf());
            e.agent = e.agent.advance(dt_us);
            self.wanderers[i] = e;
            i += 1;
        }
        self.predator_agent = self.predator_agent.advance(dt_us);
        assert(self.wf());
    }

    /// One tick of the simulation, in order: navigation and flight,
    /// reproduction, target selection, hunting, speed, movement.
    pub fn tick(&mut self, dt_us: u64, boost: bool)
        requires
            old(self).wf(),
            old(self).roomy(),
            dt_us <= MAX_DT_US,
        ensures
            final(self).wf(),
            old(self).ticked(*final(self), dt_us as int, boost),
            final(self).predator_agent.speed == boosted_speed(boost),
            final(self).predator.target matches Some(id) ==> final(self).live(id),
    {
        self.update_wanderers();
        let ghost navigated = *self;
        assert(positions_within(*self, ROOM_LIMIT as int));
        self.spawn_wanderers(dt_us);
        let ghost reproduced = *self;
        self.choose_target_for_predator();
        let ghost chosen = *self;
        self.update_predators();
        proof {
            assert(positions_within(*self, ROOM_LIMIT + MILLI)) by {
                if self.wanderers@.len() < chosen.wanderers@.len() {
                    let j = chosen.index_spec(chosen.predator.target->0);
                    assert forall|k: int| 0 <= k < self.wanderers@.len() implies bounded(
                        (#[trigger] self.wanderers@[k]).agent.position,
                        ROOM_LIMIT + MILLI,
                    ) by {
                        if k < j {
                            assert(self.wanderers@[k] == chosen.wanderers@[k]);
                        } else {
                            assert(self.wanderers@[k] == chosen.wanderers@[k + 1]);
                        }
                    }
                }
            }
        }
        let ghost hunted = *self;
        self.boost_predator_speed(boost);
        let ghost steered = *self;
        self.move_movables(dt_us);
        assert(old(self).tick_steps(
            navigated,
            reproduced,
            chosen,
            hunted,
            steered,
            *self,
            dt_us as int,
            boost,
        ));
        proof {
            if let Some(id) = self.predator.target {
                assert(steered.live(id));
                let k = choose|k: int|
                    0 <= k < steered.wanderers@.len() && #[trigger] steered.wanderers@[k].id == id;
                assert(self.wanderers@[k].id == id);
            }
        }
    }
}

/// The first generation: `STARTING_WANDERERS` wanderers of the default
/// colour at random places, heading for random places, and the predator at
/// rest at the origin.
pub fn startup() -> (r: World)
    ensures
        r.wf(),
        r.roomy(),
        r.wanderers@.len() == STARTING_WANDERERS,
        forall|i: int|
            0 <= i < r.wanderers@.len() ==> #[trigger] r.wanderers@[i].first_generation(),
        r.predator.target is None,
        r.predator_agent.speed == PREDATOR_SPEED,
        is_zero(r.predator_agent.direction),
{
    let mut world = World::new();
    let mut i: usize = 0;
    while i < STARTING_WANDERERS
        invariant
            i <= STARTING_WANDERERS,
            world.wf(),
            world.roomy(),
            world.wanderers@.len() == i,
            world.next_id == i,
            forall|k: int|
                0 <= k < world.wanderers@.len() ==> #[trigger] world.wanderers@[k].first_generation(),
            world.predator.target is None,
            world.predator_agent.speed == PREDATOR_SPEED,
            is_zero(world.predator_agent.direction),
        decreases STARTING_WANDERERS - i,
    {
        let spawn_pos = get_random_pos_within(WIDTH, HEIGHT);
        let target_pos = get_random_pos_within(WIDTH, HEIGHT);
        let count = crate::wanderer::generate_offspring_timer_count();
        crate::wanderer::spawn_wanderer(
            &mut world,
            spawn_pos,
            target_pos,
            count,
            crate::wanderer::DEFAULT_COLOUR,
        );
        i += 1;
    }
    world
}

/// A wanderer within the scare distance of the predator heads straight away
/// from it, wherever its destination lies.
pub proof fn lemma_flee_precedence(e: WandererEntity, predator_pos: Vector3)
    requires
        e.wf(),
        in_limits(predator_pos),
        shorter_than(
            spec_sub(predator_pos, e.agent.position),
            crate::wanderer::WANDERER_SCARE_DISTANCE as int,
        ),
        predator_pos != e.agent.position,
    ensures
        e.heading(predator_pos) == spec_neg(spec_sub(predator_pos, e.agent.position)),
        dot(e.heading(predator_pos), spec_sub(predator_pos, e.agent.position)) < 0,
{
    let v = spec_sub(predator_pos, e.agent.position);
    let (x, y, z) = (v.x as int, v.y as int, v.z as int);
    assert(!(x == 0 && y == 0 && z == 0));
    assert(x * x + y * y + z * z > 0) by (nonlinear_arith)
        requires !(x == 0 && y == 0 && z == 0);
    assert(dot(spec_neg(v), v) == -(x * x + y * y + z * z)) by (nonlinear_arith)
        requires
            spec_neg(v).x == -x,
            spec_neg(v).y == -y,
            spec_neg(v).z == -z,
            dot(spec_neg(v), v) == spec_neg(v).x * x + spec_neg(v).y * y + spec_neg(v).z * z;
}

/// A lone wanderer whose timer completes a period gets exactly one
/// offspring; one whose timer does not gets none.
pub proof fn lemma_lone_parent(w: World, after: World, dt: int)
    requires
        w.wanderers@.len() == 1,
        w.reproduced(after, dt),
    ensures
        w.wanderers@[0].wanderer.offspring_timer.finishes(dt) ==> after.wanderers@.len() == 2
            && after.wanderers@[1].is_offspring_of(w.wanderers@[0]),
        !w.wanderers@[0].wanderer.offspring_timer.finishes(dt) ==> after.wanderers@.len() == 1,
{
    let s = w.wanderers@;
    assert(s.drop_last().len() == 0);
    assert(s.take(0).len() == 0);
    assert(count_finishing(s.take(0), dt) == 0);
    assert(s.last() == s[0]);
}

/// With no wanderer left, target selection assigns nothing and the
/// following hunting step leaves the predator idle with a zero heading.
pub proof fn lemma_idle_without_prey(start: World, chosen: World, after: World)
    requires
        start.wanderers@.len() == 0,
        start.chose_target(chosen),
        chosen.hunted(after),
    ensures
        start.predator.target is None ==> chosen.predator.target is None,
        start.predator.target is None ==> after.predator.target is None && is_zero(
            after.predator_agent.direction,
        ),
        after.predator.target is None,
{
    if let Some(id) = chosen.predator.target {
        assert(!chosen.live(id));
    }
}

/// The boost is no state: whatever the previous tick asked for, the speed
/// is the boosted one exactly while the signal is asserted and the base one
/// as soon as it is not.
pub proof fn lemma_boost_not_sticky(agent: Agent, first: bool, second: bool)
    ensures
        ({
            let once = Agent { speed: boosted_speed(first), ..agent };
            let twice = Agent { speed: boosted_speed(second), ..once };
            &&& second ==> twice.speed == PREDATOR_SPEED
                * crate::predator::PREDATOR_BOOST_MODIFIER
            &&& !second ==> twice.speed == PREDATOR_SPEED
            &&& twice.position == agent.position
            &&& twice.direction == agent.direction
        }),
{
}

} // verus!
