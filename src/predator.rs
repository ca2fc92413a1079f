use vstd::prelude::*;

use crate::geometry::{spec_zero, Vector3};
use crate::simulation::Agent;
use crate::wanderer::Colour;

verus! {

/// Speed of the predator, in fixed-point steps per second.
pub const PREDATOR_SPEED: u64 = 300_000;

/// Factor by which a boost multiplies the predator's speed.
pub const PREDATOR_BOOST_MODIFIER: u64 = 2;

/// The predator eats its target when closer than this.
pub const CAPTURE_DISTANCE: i64 = 25_000;

/// Wanderers of this colour are never hunted.
pub const COLOUR_PREDATOR_IGNORES: Colour = Colour::Green;

/// The predator's speed for a tick, given whether a boost is asked for.
pub open spec fn boosted_speed(boost: bool) -> u64 {
    if boost {
        (PREDATOR_SPEED * PREDATOR_BOOST_MODIFIER) as u64
    } else {
        PREDATOR_SPEED
    }
}

/// What the predator carries besides its movement: the id of the wanderer it
/// hunts, if any. The id may go stale and is checked on every use.
#[derive(Clone, Copy, Debug)]
pub struct Predator {
    pub target: Option<u64>,
}

/// The predator as it starts: at the origin, at rest, with no target.
pub fn spawn_predator() -> (r: (Agent, Predator))
    ensures
        r.0 == (Agent { position: spec_zero(), direction: spec_zero(), speed: PREDATOR_SPEED }),
        r.1.target is None,
{
    let agent = Agent { position: Vector3::zero(), direction: Vector3::zero(), speed: PREDATOR_SPEED };
    (agent, Predator { target: None })
}

} // verus!
