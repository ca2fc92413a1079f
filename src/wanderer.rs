use vstd::prelude::*;
use vstd::set_lib::*;

use crate::geometry::{in_limits, spec_sub, Vector3};
use crate::simulation::{in_plane, Agent, WandererEntity, World};
use crate::random::{random_u8, random_usize};

verus! {

/// Speed of every wanderer, in fixed-point steps per second.
pub const WANDERER_SPEED: u64 = 100_000;

/// A wanderer flees when the predator is closer than this.
pub const WANDERER_SCARE_DISTANCE: i64 = 100_000;

/// A wanderer picks a new destination when closer than this to its current one.
pub const ARRIVAL_DISTANCE: i64 = 5_000;

/// Bounds, in seconds, of the period between two offspring.
pub const OFFSPRING_TIMER_MIN: u8 = 11;
pub const OFFSPRING_TIMER_MAX: u8 = 14;

/// Microseconds in a second.
pub const MICROS_PER_SECOND: u64 = 1_000_000;

/// Chance, in percent, that an offspring takes a random colour.
pub const MUTATION_PERCENT: u8 = 5;

/// Number of colours that a mutation can draw.
pub const MUTATION_COLOURS: usize = 4;

/// The colour, and so the kind, of a wanderer.
#[derive(Clone, Copy, Debug, PartialEq, Eq, Structural)]
pub enum Colour {
    Gray,
    Green,
    Pink,
    Teal,
    Tomato,
}

/// The colour of the first generation.
pub const DEFAULT_COLOUR: Colour = Colour::Gray;

/// The colour that a mutation draws for each index.
pub open spec fn mutation_colour(i: int) -> Colour {
    if i == 0 {
        Colour::Green
    } else if i == 1 {
        Colour::Pink
    } else if i == 2 {
        Colour::Teal
    } else {
        Colour::Tomato
    }
}

pub open spec fn is_mutation_colour(c: Colour) -> bool {
    exists|i: int| 0 <= i < MUTATION_COLOURS && mutation_colour(i) == c
}

/// The colour an offspring gets for a roll in `0..100`: the parent's, unless
/// the roll falls below the mutation chance.
pub open spec fn inherited_colour(parent: Colour, roll: int, mutation: Colour) -> Colour {
    if roll < MUTATION_PERCENT {
        mutation
    } else {
        parent
    }
}

/// A repeating timer that counts toward the next offspring.
#[derive(Clone, Copy, Debug, PartialEq, Eq, Structural)]
pub struct OffspringTimer {
    pub elapsed_us: u64,
    pub period_us: u64,
}

/// Longest tick that the simulation accepts, in microseconds.
pub const MAX_DT_US: u64 = 100_000_000;

impl OffspringTimer {
    pub open spec fn wf(self) -> bool {
        0 < self.period_us <= u8::MAX * MICROS_PER_SECOND && self.elapsed_us < self.period_us
    }

    /// Whether a tick of `dt` completes a period.
    pub open spec fn finishes(self, dt: int) -> bool {
        self.elapsed_us + dt >= self.period_us
    }

    /// The timer after a tick of `dt`: what is left over after the completed
    /// periods.
    pub open spec fn ticked(self, dt: int) -> OffspringTimer {
        OffspringTimer {
            elapsed_us: ((self.elapsed_us + dt) % (self.period_us as int)) as u64,
            period_us: self.period_us,
        }
    }

    /// A fresh timer with a period of `seconds`.
    pub fn new(seconds: u8) -> (r: OffspringTimer)
        requires
            0 < seconds,
        ensures
            r.wf(),
            r.elapsed_us == 0,
            r.period_us == seconds * MICROS_PER_SECOND,
            r.period_us % MICROS_PER_SECOND == 0,
    {
        proof {
            vstd::arithmetic::div_mod::lemma_mod_multiples_basic(
                seconds as int,
                MICROS_PER_SECOND as int,
            );
        }
        OffspringTimer { elapsed_us: 0, period_us: seconds as u64 * MICROS_PER_SECOND }
    }

    /// Advances the timer by `dt_us`; returns whether a period completed.
    pub fn tick(&mut self, dt_us: u64) -> (just_finished: bool)
        requires
            old(self).wf(),
            dt_us <= MAX_DT_US,
        ensures
            final(self).wf(),
            *final(self) == old(self).ticked(dt_us as int),
            just_finished == old(self).finishes(dt_us as int),
    {
        let total = self.elapsed_us + dt_us;
        self.elapsed_us = total % self.period_us;
        total >= self.period_us
    }
}

/// What a wanderer carries besides its movement.
#[derive(Clone, Copy, Debug, PartialEq, Eq, Structural)]
pub struct Wanderer {
    pub target_pos: Vector3,
    pub offspring_timer: OffspringTimer,
    pub colour: Colour,
}

/// Draws the period, in seconds, of a new offspring timer.
pub fn generate_offspring_timer_count() -> (r: u8)
    ensures
        OFFSPRING_TIMER_MIN <= r <= OFFSPRING_TIMER_MAX,
{
    random_u8(OFFSPRING_TIMER_MIN, OFFSPRING_TIMER_MAX)
}

/// The colour that a mutation draws for index `i`.
pub fn colour_at(i: usize) -> (r: Colour)
    requires
        i < MUTATION_COLOURS,
    ensures
        r == mutation_colour(i as int),
{
    if i == 0 {
        Colour::Green
    } else if i == 1 {
        Colour::Pink
    } else if i == 2 {
        Colour::Teal
    } else {
        Colour::Tomato
    }
}

/// Draws one of the mutation colours.
pub fn get_random_colour() -> (r: Colour)
    ensures
        is_mutation_colour(r),
{
    let i = random_usize(0, MUTATION_COLOURS);
    colour_at(i)
}

/// The colour of an offspring, given the roll in `0..100` and the colour that
/// a mutation would give.
pub fn inherit_colour(parent: Colour, roll: u8, mutation: Colour) -> (r: Colour)
    ensures
        r == inherited_colour(parent, roll as int, mutation),
{
    if roll < MUTATION_PERCENT {
        mutation
    } else {
        parent
    }
}

/// The colour of an offspring of a `colour` parent: the parent's, or with a
/// small chance a mutation colour.
pub fn get_colour_for_wanderer(colour: Colour) -> (r: Colour)
    ensures
        r == colour || is_mutation_colour(r),
{
    let roll = random_u8(0, 99);
    if roll < MUTATION_PERCENT {
        let mutation = get_random_colour();
        inherit_colour(colour, roll, mutation)
    } else {
        inherit_colour(colour, roll, colour)
    }
}

/// Adds a wanderer at `spawn_pos`, heading for `target_pos`, with an offspring
/// period of `offspring_timer_count` seconds; returns its id.
pub fn spawn_wanderer(
    world: &mut World,
    spawn_pos: Vector3,
    target_pos: Vector3,
    offspring_timer_count: u8,
    colour: Colour,
) -> (id: u64)
    requires
        old(world).wf(),
        in_limits(spawn_pos),
        in_plane(target_pos),
        0 < offspring_timer_count,
        old(world).next_id < u64::MAX,
    ensures
        final(world).wf(),
        id == old(world).next_id,
        final(world).next_id == old(world).next_id + 1,
        final(world).wanderers@ == old(world).wanderers@.push(
            WandererEntity {
                id,
                agent: Agent {
                    position: spawn_pos,
                    direction: spec_sub(target_pos, spawn_pos),
                    speed: WANDERER_SPEED,
                },
                wanderer: Wanderer {
                    target_pos,
                    offspring_timer: OffspringTimer {
                        elapsed_us: 0,
                        period_us: (offspring_timer_count * MICROS_PER_SECOND) as u64,
                    },
                    colour,
                },
            },
        ),
        final(world).wanderers@.last().wanderer.offspring_timer.period_us % MICROS_PER_SECOND == 0,
        final(world).predator_agent == old(world).predator_agent,
        final(world).predator == old(world).predator,
{
    let id = world.next_id;
    let entity = WandererEntity {
        id,
        agent: Agent {
            position: spawn_pos,
            direction: target_pos.sub(&spawn_pos),
            speed: WANDERER_SPEED,
        },
        wanderer: Wanderer {
            target_pos,
            offspring_timer: OffspringTimer::new(offspring_timer_count),
            colour,
        },
    };
    world.wanderers.push(entity);
    world.next_id = id + 1;
    id
}

/// The number of periods that a timer completes over a run of ticks.
pub open spec fn completions(t: OffspringTimer, dts: Seq<int>) -> nat
    decreases dts.len(),
{
    if dts.len() == 0 {
        0
    } else {
        (if t.finishes(dts[0]) {
            1nat
        } else {
            0nat
        }) + completions(t.ticked(dts[0]), dts.drop_first())
    }
}

/// The total time of a run of ticks.
pub open spec fn total_time(dts: Seq<int>) -> int
    decreases dts.len(),
{
    if dts.len() == 0 {
        0
    } else {
        dts[0] + total_time(dts.drop_first())
    }
}

/// Over a run of ticks, each shorter than the period, a timer completes one
/// period (and its wanderer gets one offspring) for each whole period of time
/// elapsed; so a fresh timer completes exactly one over a total of at least
/// one and less than two periods.
pub proof fn lemma_offspring_over_ticks(t: OffspringTimer, dts: Seq<int>)
    requires
        t.wf(),
        forall|i: int| 0 <= i < dts.len() ==> 0 <= #[trigger] dts[i] < t.period_us,
    ensures
        completions(t, dts) == (t.elapsed_us + total_time(dts)) / (t.period_us as int),
        t.elapsed_us == 0 && t.period_us <= total_time(dts) < 2 * t.period_us ==> completions(
            t,
            dts,
        ) == 1,
    decreases dts.len(),
{
    let p = t.period_us as int;
    let e = t.elapsed_us as int;
    if dts.len() == 0 {
        vstd::arithmetic::div_mod::lemma_fundamental_div_mod_converse(e, p, 0, e);
    } else {
        let dt = dts[0];
        let rest = dts.drop_first();
        let big = e + dt;
        if big >= p {
            vstd::arithmetic::div_mod::lemma_fundamental_div_mod_converse(big, p, 1, big - p);
        } else {
            vstd::arithmetic::div_mod::lemma_fundamental_div_mod_converse(big, p, 0, big);
        }
        let t2 = t.ticked(dt);
        assert(t2.wf());
        assert forall|i: int| 0 <= i < rest.len() implies 0 <= #[trigger] rest[i] < t2.period_us by {
            assert(rest[i] == dts[i + 1]);
        }
        lemma_offspring_over_ticks(t2, rest);
        let r = total_time(rest);
        let low = big % p;
        let q = (low + r) / p;
        vstd::arithmetic::div_mod::lemma_fundamental_div_mod(low + r, p);
        vstd::arithmetic::div_mod::lemma_mod_pos_bound(low + r, p);
        let k: int = if big >= p { 1 } else { 0 };
        assert(big + r == (q + k) * p + (low + r) % p) by (nonlinear_arith)
            requires
                low + r == p * q + (low + r) % p,
                big == low + k * p;
        vstd::arithmetic::div_mod::lemma_fundamental_div_mod_converse(
            big + r,
            p,
            q + k,
            (low + r) % p,
        );
    }
    let total = total_time(dts);
    if e == 0 && p <= total < 2 * p {
        vstd::arithmetic::div_mod::lemma_fundamental_div_mod_converse(total, p, 1, total - p);
    }
}

/// Of the hundred equally likely rolls, at least all but the mutation chance
/// keep the parent's colour, whatever a mutation would draw.
pub proof fn lemma_offspring_keeps_colour(parent: Colour, mutation: Colour)
    ensures
        Set::new(|roll: int| 0 <= roll < 100 && inherited_colour(parent, roll, mutation) == parent)
            .len() >= 100 - MUTATION_PERCENT,
        Set::new(
            |roll: int| 0 <= roll < 100 && inherited_colour(parent, roll, mutation) == parent,
        ).finite(),
{
    let keep = Set::new(
        |roll: int| 0 <= roll < 100 && inherited_colour(parent, roll, mutation) == parent,
    );
    let high = set_int_range(MUTATION_PERCENT as int, 100);
    let all = set_int_range(0, 100);
    lemma_int_range(MUTATION_PERCENT as int, 100);
    lemma_int_range(0, 100);
    assert(high.subset_of(keep));
    assert(keep.subset_of(all));
    lemma_len_subset(keep, all);
    lemma_len_subset(high, keep);
}

} // verus!
