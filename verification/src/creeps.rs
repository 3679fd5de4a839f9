//! Agents: body parts and their cost, roles, and the population census.

use vstd::prelude::*;
use vstd::string::StrSliceExecFns;

verus! {

/// The name of an agent, unique for the agent's lifetime.
pub type CreepName = String;

/// A body part of an agent. Each part contributes a fixed amount to the cost
/// of spawning the agent and to its per-tick running cost.
#[derive(Debug, PartialEq, Eq, Structural, Clone, Copy, Hash)]
pub enum Part {
    /// Enables movement.
    Move,
    /// Enables harvesting, building and upgrading.
    Work,
    /// Enables carrying resource.
    Carry,
    /// Enables melee attacks.
    Attack,
    /// Enables ranged attacks.
    RangedAttack,
    /// Absorbs damage.
    Tough,
    /// Enables healing.
    Heal,
    /// Enables claiming a controller.
    Claim,
}

impl Part {
    /// The energy cost of spawning this part.
    pub open spec fn cost_spec(self) -> int {
        match self {
            Part::Move => 50,
            Part::Work => 100,
            Part::Carry => 50,
            Part::Attack => 80,
            Part::RangedAttack => 150,
            Part::Tough => 10,
            Part::Heal => 250,
            Part::Claim => 600,
        }
    }

    /// The energy cost of spawning this part.
    pub fn cost(self) -> (c: u32)
        ensures
            c as int == self.cost_spec(),
    {
        match self {
            Part::Move => 50,
            Part::Work => 100,
            Part::Carry => 50,
            Part::Attack => 80,
            Part::RangedAttack => 150,
            Part::Tough => 10,
            Part::Heal => 250,
            Part::Claim => 600,
        }
    }
}

/// Largest number of parts one agent body can have.
pub const MAX_BODY_PARTS: usize = 50;

/// Total spawn cost of the first `n` parts of a body.
pub open spec fn body_cost_prefix(body: Seq<Part>, n: int) -> int
    decreases n,
{
    if n <= 0 {
        0
    } else {
        body_cost_prefix(body, n - 1) + body[n - 1].cost_spec()
    }
}

/// Total spawn cost of a body.
pub open spec fn body_cost_spec(body: Seq<Part>) -> int {
    body_cost_prefix(body, body.len() as int)
}

/// Total spawn cost of a body, also the agent's per-tick running-cost proxy.
pub fn body_cost(body: &Vec<Part>) -> (c: u32)
    requires
        body@.len() <= MAX_BODY_PARTS,
    ensures
        c as int == body_cost_spec(body@),
{
    let mut c: u32 = 0;
    let mut i: usize = 0;
    while i < body.len()
        invariant
            i <= body@.len(),
            body@.len() <= MAX_BODY_PARTS,
            c as int == body_cost_prefix(body@, i as int),
            c <= i * 600,
        decreases body@.len() - i,
    {
        c = c + body[i].cost();
        i = i + 1;
    }
    c
}

/// The role an agent fills, read off the first letter of its name.
#[derive(Debug, PartialEq, Eq, Structural, Clone, Copy, Hash)]
pub enum Role {
    /// A worker that harvests, hauls, builds and upgrades.
    Drone,
    /// Any agent this controller does not know how to drive.
    Unknown,
}

/// The role encoded by the first letter of an agent's name.
pub open spec fn role_of_spec(c: char) -> Role {
    if c == 'd' || c == 'H' {
        Role::Drone
    } else {
        Role::Unknown
    }
}

/// The role encoded by the first letter of an agent's name.
pub fn role_of(c: char) -> (r: Role)
    ensures
        r == role_of_spec(c),
{
    if c == 'd' || c == 'H' {
        Role::Drone
    } else {
        Role::Unknown
    }
}

/// Population counts taken by one census pass over all live agent names.
#[derive(Debug, PartialEq, Eq, Structural, Clone, Copy)]
pub struct CensusCounts {
    /// Agents whose name starts with the drone prefix letter.
    pub drone: u32,
    /// Agents with any other (non-empty) name.
    pub unknown: u32,
    /// Agents with an empty name; these indicate a world-state error.
    pub nameless: u32,
}

/// Whether a name counts as a drone in the census.
pub open spec fn census_is_drone(name: Seq<char>) -> bool {
    name.len() > 0 && name[0] == 'd'
}

/// Whether a name counts as unknown in the census.
pub open spec fn census_is_unknown(name: Seq<char>) -> bool {
    name.len() > 0 && name[0] != 'd'
}

/// Census counts over the first `n` names.
pub open spec fn census_prefix(names: Seq<Seq<char>>, n: int) -> (int, int, int)
    decreases n,
{
    if n <= 0 {
        (0, 0, 0)
    } else {
        let (d, u, e) = census_prefix(names, n - 1);
        if census_is_drone(names[n - 1]) {
            (d + 1, u, e)
        } else if census_is_unknown(names[n - 1]) {
            (d, u + 1, e)
        } else {
            (d, u, e + 1)
        }
    }
}

/// The view of a list of names as a sequence of character sequences.
pub open spec fn names_view(names: Seq<CreepName>) -> Seq<Seq<char>> {
    names.map_values(|s: CreepName| s@)
}

/// Counts the population by role prefix: names starting with `'d'` are
/// drones, other non-empty names are unknown, and empty names are counted
/// separately as errors.
pub fn census(names: &Vec<CreepName>) -> (r: CensusCounts)
    requires
        names@.len() <= u32::MAX,
    ensures
        (r.drone as int, r.unknown as int, r.nameless as int) == census_prefix(
            names_view(names@),
            names@.len() as int,
        ),
{
    let mut d: u32 = 0;
    let mut u: u32 = 0;
    let mut e: u32 = 0;
    let mut i: usize = 0;
    while i < names.len()
        invariant
            i <= names@.len(),
            names@.len() <= u32::MAX,
            d <= i && u <= i && e <= i,
            (d as int, u as int, e as int) == census_prefix(names_view(names@), i as int),
        decreases names@.len() - i,
    {
        let name: &CreepName = &names[i];
        assert(names_view(names@)[i as int] == name@);
        if name.as_str().unicode_len() == 0 {
            e = e + 1;
        } else {
            let c = name.as_str().get_char(0);
            if c == 'd' {
                d = d + 1;
            } else {
                u = u + 1;
            }
        }
        i = i + 1;
    }
    CensusCounts { drone: d, unknown: u, nameless: e }
}

} // verus!
