//! The population-growth decision: whether to spawn a new drone this tick
//! and with which body.

use vstd::prelude::*;
use crate::creeps::{body_cost_prefix, body_cost_spec, Part};

verus! {

/// Most drones the controller will keep alive at once.
pub const MAX_DRONE: u32 = 8;

/// Below this many drones, a cheap body is preferred whenever the large one
/// is not immediately affordable.
pub const SMALL_FLEET_LIMIT: u32 = 3;

/// Which of the two drone loadouts to spawn.
#[derive(Debug, PartialEq, Eq, Structural, Clone, Copy)]
pub enum BodyChoice {
    /// The minimal worker body.
    Small,
    /// The doubled worker body.
    Large,
}

/// The minimal worker body.
pub open spec fn small_body() -> Seq<Part> {
    seq![Part::Work, Part::Carry, Part::Move]
}

/// The doubled worker body.
pub open spec fn large_body() -> Seq<Part> {
    seq![Part::Carry, Part::Work, Part::Move, Part::Carry, Part::Work, Part::Move]
}

/// The body a choice stands for.
pub open spec fn body_of_spec(c: BodyChoice) -> Seq<Part> {
    match c {
        BodyChoice::Small => small_body(),
        BodyChoice::Large => large_body(),
    }
}

/// Builds the body a choice stands for.
pub fn body_of(c: BodyChoice) -> (b: Vec<Part>)
    ensures
        b@ == body_of_spec(c),
{
    match c {
        BodyChoice::Small => {
            let mut b: Vec<Part> = Vec::new();
            b.push(Part::Work);
            b.push(Part::Carry);
            b.push(Part::Move);
            proof {
                assert(b@ =~= small_body());
            }
            b
        },
        BodyChoice::Large => {
            let mut b: Vec<Part> = Vec::new();
            b.push(Part::Carry);
            b.push(Part::Work);
            b.push(Part::Move);
            b.push(Part::Carry);
            b.push(Part::Work);
            b.push(Part::Move);
            proof {
                assert(b@ =~= large_body());
            }
            b
        },
    }
}

/// What [`spawn_decision`] decides: no spawn when the fleet is full, the
/// large body when the room can hold its cost and either the fleet is no
/// longer small or the cost is available right now, the small body
/// otherwise; and in every case only if the chosen body is affordable this
/// tick.
pub open spec fn spawn_decision_spec(
    drone_count: u32,
    max_drone: u32,
    energy_available: u32,
    energy_capacity: u32,
) -> Option<BodyChoice> {
    if max_drone <= drone_count {
        None
    } else {
        let large_cost = body_cost_spec(large_body());
        let c = if (energy_capacity as int) < large_cost || (drone_count < SMALL_FLEET_LIMIT && (
        energy_available as int) < large_cost) {
            BodyChoice::Small
        } else {
            BodyChoice::Large
        };
        if (energy_available as int) < body_cost_spec(body_of_spec(c)) {
            None
        } else {
            Some(c)
        }
    }
}

/// Decides whether to spawn a new drone and with which body, from the
/// current drone count and the home area's spawning energy.
pub fn spawn_decision(
    drone_count: u32,
    max_drone: u32,
    energy_available: u32,
    energy_capacity: u32,
) -> (r: Option<BodyChoice>)
    ensures
        r == spawn_decision_spec(drone_count, max_drone, energy_available, energy_capacity),
{
    proof {
        reveal_with_fuel(body_cost_prefix, 7);
        assert(body_cost_spec(large_body()) == 400);
        assert(body_cost_spec(small_body()) == 200);
    }
    if max_drone <= drone_count {
        return None;
    }
    let c = if energy_capacity < 400 || (drone_count < SMALL_FLEET_LIMIT && energy_available
        < 400) {
        BodyChoice::Small
    } else {
        BodyChoice::Large
    };
    let cost: u32 = match c {
        BodyChoice::Small => 200,
        BodyChoice::Large => 400,
    };
    if energy_available < cost {
        None
    } else {
        Some(c)
    }
}

} // verus!
