//! The greedy target-acquisition heuristic: picks a task for an agent that
//! has none, balancing the opportunity cost of travel against the capacity
//! and priority of the candidate targets.
//!
//! The caller gathers the candidates (ruins, the nearest active source
//! reachable by path, owned structures, construction sites) from the world
//! and hands them over as plain values; the selection itself is decided here.

use vstd::prelude::*;
use crate::jobs::TargetEnum;

verus! {

/// Load state of the agent being placed: how much of its single carried
/// resource it holds and how much room it has left.
#[derive(Debug, PartialEq, Eq, Structural, Clone, Copy)]
pub struct AgentState {
    /// Amount of resource carried.
    pub used: u32,
    /// Free carry capacity left.
    pub free: i32,
}

/// A ruin that may still hold resource, as an origin candidate.
#[derive(Debug, PartialEq, Eq, Structural, Clone, Copy)]
pub struct RuinCand {
    /// Stable identity of the ruin.
    pub id: u128,
    /// Resource still stored in the ruin.
    pub energy: u32,
    /// Distance from the agent.
    pub range: u32,
}

/// The nearest active source reachable by path, as an origin candidate.
#[derive(Debug, PartialEq, Eq, Structural, Clone, Copy)]
pub struct SourceCand {
    /// Stable identity of the source.
    pub id: u128,
    /// Distance from the agent.
    pub range: u32,
}

/// The kinds of owned structure that can absorb resource.
#[derive(Debug, PartialEq, Eq, Structural, Clone, Copy)]
pub enum StructKind {
    /// An extension: a small distributed store.
    Extension,
    /// A spawn: the main store.
    Spawn,
    /// The room controller: always absorbs resource.
    Controller,
}

/// An owned structure, as a destination candidate.
#[derive(Debug, PartialEq, Eq, Structural, Clone, Copy)]
pub struct StructCand {
    /// Which kind of structure this is.
    pub kind: StructKind,
    /// Stable identity of the structure.
    pub id: u128,
    /// Distance from the agent.
    pub range: u32,
    /// Free store capacity of the structure.
    pub free_energy: i32,
}

/// A construction site, as a fallback destination candidate.
#[derive(Debug, PartialEq, Eq, Structural, Clone, Copy)]
pub struct SiteCand {
    /// Stable identity of the site.
    pub id: u128,
    /// Distance from the agent.
    pub range: u32,
}

/// Everything the heuristic reads about the world this tick, gathered by the
/// caller. All distances are measured from the agent being placed.
#[derive(Debug, Clone)]
pub struct WorldSnapshot {
    /// Ruins in the room.
    pub ruins: Vec<RuinCand>,
    /// The nearest active source reachable by path, if any.
    pub closest_source: Option<SourceCand>,
    /// Owned structures in the room.
    pub structures: Vec<StructCand>,
    /// Construction sites in the room.
    pub sites: Vec<SiteCand>,
    /// Resource available for spawning in the agent's home area.
    pub energy_available: u32,
    /// Largest spawning capacity of the agent's home area.
    pub energy_capacity: u32,
}

/// Smallest delivery worth hauling to a spawn.
pub const MIN_SPAWN_DELIVERY: i32 = 50;

/// Smallest delivery worth hauling to an extension.
pub const MIN_EXTENSION_DELIVERY: i32 = 1;

/// Smallest delivery worth stopping for within working range: within the
/// near radius a spawn or extension is only taken with at least this much
/// free.
pub const MIN_NEAR_DELIVERY: i32 = 50;

/// The tight radius within which a destination counts as "near".
pub const NEAR_RANGE: u32 = 3;

/// The radius within which a store can be filled without further movement.
pub const TOUCH_RANGE: u32 = 1;

/// Whether a ruin is worth withdrawing from.
pub open spec fn ruin_has_energy(r: RuinCand) -> bool {
    r.energy > 0
}

/// Whether a structure is an eligible sink: a controller always is, a spawn
/// or extension only if its free capacity reaches the minimum useful
/// delivery amount.
pub open spec fn eligible_dest(s: StructCand) -> bool {
    match s.kind {
        StructKind::Extension => s.free_energy >= MIN_EXTENSION_DELIVERY,
        StructKind::Spawn => s.free_energy >= MIN_SPAWN_DELIVERY,
        StructKind::Controller => true,
    }
}

/// Whether a structure is an eligible sink within working range: a
/// controller within the near radius, a spawn or extension only directly
/// adjacent and with at least the minimum useful delivery amount free.
pub open spec fn near_eligible(s: StructCand) -> bool {
    match s.kind {
        StructKind::Extension => s.range <= TOUCH_RANGE && s.free_energy >= MIN_NEAR_DELIVERY,
        StructKind::Spawn => s.range <= TOUCH_RANGE && s.free_energy >= MIN_NEAR_DELIVERY,
        StructKind::Controller => s.range <= NEAR_RANGE,
    }
}

/// Fixed priority of a destination kind: lower is preferred. Construction
/// sites sit between spawns and the controller.
pub open spec fn dest_rank(k: StructKind) -> int {
    match k {
        StructKind::Extension => 0,
        StructKind::Spawn => 1,
        StructKind::Controller => 3,
    }
}

/// Priority of a construction site in the shared destination order.
pub open spec fn site_rank() -> int {
    2
}

/// The binding a destination structure selects.
pub open spec fn struct_target(s: StructCand) -> TargetEnum {
    match s.kind {
        StructKind::Extension => TargetEnum::Extension(s.id),
        StructKind::Spawn => TargetEnum::Spawn(s.id),
        StructKind::Controller => TargetEnum::Controller(s.id),
    }
}

/// Index of the first ruin with resource at minimal range, among the first
/// `n` ruins.
pub open spec fn best_ruin(ruins: Seq<RuinCand>, n: int) -> Option<int>
    decreases n,
{
    if n <= 0 {
        None
    } else {
        let prev = best_ruin(ruins, n - 1);
        if !ruin_has_energy(ruins[n - 1]) {
            prev
        } else {
            match prev {
                None => Some(n - 1),
                Some(i) => if ruins[n - 1].range < ruins[i].range {
                    Some(n - 1)
                } else {
                    prev
                },
            }
        }
    }
}

/// Whether `a` beats `b` in priority-then-distance order.
pub open spec fn better_prio(a: StructCand, b: StructCand) -> bool {
    dest_rank(a.kind) < dest_rank(b.kind) || (dest_rank(a.kind) == dest_rank(b.kind) && a.range
        < b.range)
}

/// Whether `a` beats `b` in distance-then-priority order.
pub open spec fn better_range(a: StructCand, b: StructCand) -> bool {
    a.range < b.range || (a.range == b.range && dest_rank(a.kind) < dest_rank(b.kind))
}

/// Index of the first eligible sink in priority-then-distance order, among
/// the first `n` structures.
pub open spec fn best_dest_prio(ss: Seq<StructCand>, n: int) -> Option<int>
    decreases n,
{
    if n <= 0 {
        None
    } else {
        let prev = best_dest_prio(ss, n - 1);
        if !eligible_dest(ss[n - 1]) {
            prev
        } else {
            match prev {
                None => Some(n - 1),
                Some(i) => if better_prio(ss[n - 1], ss[i]) {
                    Some(n - 1)
                } else {
                    prev
                },
            }
        }
    }
}

/// Index of the first near-eligible sink in distance-then-priority order,
/// among the first `n` structures.
pub open spec fn best_dest_near(ss: Seq<StructCand>, n: int) -> Option<int>
    decreases n,
{
    if n <= 0 {
        None
    } else {
        let prev = best_dest_near(ss, n - 1);
        if !near_eligible(ss[n - 1]) {
            prev
        } else {
            match prev {
                None => Some(n - 1),
                Some(i) => if better_range(ss[n - 1], ss[i]) {
                    Some(n - 1)
                } else {
                    prev
                },
            }
        }
    }
}

/// Index of the first eligible sink in distance-then-priority order, among
/// the first `n` structures.
pub open spec fn best_dest_range(ss: Seq<StructCand>, n: int) -> Option<int>
    decreases n,
{
    if n <= 0 {
        None
    } else {
        let prev = best_dest_range(ss, n - 1);
        if !eligible_dest(ss[n - 1]) {
            prev
        } else {
            match prev {
                None => Some(n - 1),
                Some(i) => if better_range(ss[n - 1], ss[i]) {
                    Some(n - 1)
                } else {
                    prev
                },
            }
        }
    }
}

/// Index of the first construction site at minimal range, among the first
/// `n` sites.
pub open spec fn best_site(sites: Seq<SiteCand>, n: int) -> Option<int>
    decreases n,
{
    if n <= 0 {
        None
    } else {
        let prev = best_site(sites, n - 1);
        match prev {
            None => Some(n - 1),
            Some(i) => if sites[n - 1].range < sites[i].range {
                Some(n - 1)
            } else {
                prev
            },
        }
    }
}

/// An executable index as the mathematical option it stands for.
pub open spec fn opt_as_int(r: Option<usize>) -> Option<int> {
    match r {
        Some(i) => Some(i as int),
        None => None,
    }
}

/// A selected ruin index lies within the scanned prefix.
proof fn lemma_best_ruin_bounds(ruins: Seq<RuinCand>, n: int)
    ensures
        best_ruin(ruins, n) matches Some(i) ==> 0 <= i < n,
    decreases n,
{
    if n > 0 {
        lemma_best_ruin_bounds(ruins, n - 1);
    }
}

/// A selected structure index lies within the scanned prefix.
proof fn lemma_best_dest_prio_bounds(ss: Seq<StructCand>, n: int)
    ensures
        best_dest_prio(ss, n) matches Some(i) ==> 0 <= i < n,
    decreases n,
{
    if n > 0 {
        lemma_best_dest_prio_bounds(ss, n - 1);
    }
}

/// A selected structure index lies within the scanned prefix.
proof fn lemma_best_dest_near_bounds(ss: Seq<StructCand>, n: int)
    ensures
        best_dest_near(ss, n) matches Some(i) ==> 0 <= i < n,
    decreases n,
{
    if n > 0 {
        lemma_best_dest_near_bounds(ss, n - 1);
    }
}

/// A selected structure index lies within the scanned prefix.
proof fn lemma_best_dest_range_bounds(ss: Seq<StructCand>, n: int)
    ensures
        best_dest_range(ss, n) matches Some(i) ==> 0 <= i < n,
    decreases n,
{
    if n > 0 {
        lemma_best_dest_range_bounds(ss, n - 1);
    }
}

/// A selected site index lies within the scanned prefix.
proof fn lemma_best_site_bounds(sites: Seq<SiteCand>, n: int)
    ensures
        best_site(sites, n) matches Some(i) ==> 0 <= i < n,
    decreases n,
{
    if n > 0 {
        lemma_best_site_bounds(sites, n - 1);
    }
}

/// Returns the closest ruin still holding resource, if any.
pub fn try_origin_ruin(ruins: &Vec<RuinCand>) -> (r: Option<usize>)
    ensures
        opt_as_int(r) == best_ruin(ruins@, ruins@.len() as int),
{
    let mut best: Option<usize> = None;
    let mut i: usize = 0;
    while i < ruins.len()
        invariant
            i <= ruins@.len(),
            opt_as_int(best) == best_ruin(ruins@, i as int),
            best matches Some(b) ==> b < i,
        decreases ruins@.len() - i,
    {
        if ruins[i].energy > 0 {
            match best {
                None => { best = Some(i); },
                Some(b) => if ruins[i].range < ruins[b].range {
                    best = Some(i);
                },
            }
        }
        i = i + 1;
    }
    best
}

/// Returns the best structure destination in the room, in
/// priority-then-distance order.
pub fn try_dest_structure(ss: &Vec<StructCand>) -> (r: Option<usize>)
    ensures
        opt_as_int(r) == best_dest_prio(ss@, ss@.len() as int),
{
    let mut best: Option<usize> = None;
    let mut i: usize = 0;
    while i < ss.len()
        invariant
            i <= ss@.len(),
            opt_as_int(best) == best_dest_prio(ss@, i as int),
            best matches Some(b) ==> b < i,
        decreases ss@.len() - i,
    {
        if eligible_dest_exec(&ss[i]) {
            match best {
                None => { best = Some(i); },
                Some(b) => if better_prio_exec(&ss[i], &ss[b]) {
                    best = Some(i);
                },
            }
        }
        i = i + 1;
    }
    best
}

/// Returns the best structure destination in working range, nearest first.
pub fn try_dest_structure_near(ss: &Vec<StructCand>) -> (r: Option<usize>)
    ensures
        opt_as_int(r) == best_dest_near(ss@, ss@.len() as int),
{
    let mut best: Option<usize> = None;
    let mut i: usize = 0;
    while i < ss.len()
        invariant
            i <= ss@.len(),
            opt_as_int(best) == best_dest_near(ss@, i as int),
            best matches Some(b) ==> b < i,
        decreases ss@.len() - i,
    {
        if near_eligible_exec(&ss[i]) {
            match best {
                None => { best = Some(i); },
                Some(b) => if better_range_exec(&ss[i], &ss[b]) {
                    best = Some(i);
                },
            }
        }
        i = i + 1;
    }
    best
}

/// Returns the closest eligible structure destination in the room.
pub fn try_dest_structure_by_range(ss: &Vec<StructCand>) -> (r: Option<usize>)
    ensures
        opt_as_int(r) == best_dest_range(ss@, ss@.len() as int),
{
    let mut best: Option<usize> = None;
    let mut i: usize = 0;
    while i < ss.len()
        invariant
            i <= ss@.len(),
            opt_as_int(best) == best_dest_range(ss@, i as int),
            best matches Some(b) ==> b < i,
        decreases ss@.len() - i,
    {
        if eligible_dest_exec(&ss[i]) {
            match best {
                None => { best = Some(i); },
                Some(b) => if better_range_exec(&ss[i], &ss[b]) {
                    best = Some(i);
                },
            }
        }
        i = i + 1;
    }
    best
}

/// Returns the closest construction site, if any.
pub fn try_dest_construction_site(sites: &Vec<SiteCand>) -> (r: Option<usize>)
    ensures
        opt_as_int(r) == best_site(sites@, sites@.len() as int),
{
    let mut best: Option<usize> = None;
    let mut i: usize = 0;
    while i < sites.len()
        invariant
            i <= sites@.len(),
            opt_as_int(best) == best_site(sites@, i as int),
            best matches Some(b) ==> b < i,
        decreases sites@.len() - i,
    {
        match best {
            None => { best = Some(i); },
            Some(b) => if sites[i].range < sites[b].range {
                best = Some(i);
            },
        }
        i = i + 1;
    }
    best
}

/// Executable form of [`eligible_dest`].
fn eligible_dest_exec(s: &StructCand) -> (r: bool)
    ensures
        r == eligible_dest(*s),
{
    match s.kind {
        StructKind::Extension => s.free_energy >= MIN_EXTENSION_DELIVERY,
        StructKind::Spawn => s.free_energy >= MIN_SPAWN_DELIVERY,
        StructKind::Controller => true,
    }
}

/// Executable form of [`near_eligible`].
fn near_eligible_exec(s: &StructCand) -> (r: bool)
    ensures
        r == near_eligible(*s),
{
    match s.kind {
        StructKind::Extension => s.range <= TOUCH_RANGE && s.free_energy >= MIN_NEAR_DELIVERY,
        StructKind::Spawn => s.range <= TOUCH_RANGE && s.free_energy >= MIN_NEAR_DELIVERY,
        StructKind::Controller => s.range <= NEAR_RANGE,
    }
}

/// Executable form of [`dest_rank`].
fn dest_rank_exec(k: StructKind) -> (r: u8)
    ensures
        r as int == dest_rank(k),
{
    match k {
        StructKind::Extension => 0,
        StructKind::Spawn => 1,
        StructKind::Controller => 3,
    }
}

/// Executable form of [`better_prio`].
fn better_prio_exec(a: &StructCand, b: &StructCand) -> (r: bool)
    ensures
        r == better_prio(*a, *b),
{
    let ra = dest_rank_exec(a.kind);
    let rb = dest_rank_exec(b.kind);
    ra < rb || (ra == rb && a.range < b.range)
}

/// Executable form of [`better_range`].
fn better_range_exec(a: &StructCand, b: &StructCand) -> (r: bool)
    ensures
        r == better_range(*a, *b),
{
    a.range < b.range || (a.range == b.range && dest_rank_exec(a.kind) < dest_rank_exec(b.kind))
}

/// Where the agent should collect: the closest ruin with resource first, the
/// nearest active source reachable by path second. Skipped entirely for an
/// agent with no free capacity.
pub open spec fn origin_spec(agent: AgentState, w: WorldSnapshot) -> Option<(TargetEnum, u32)> {
    if agent.free == 0 {
        None
    } else {
        match best_ruin(w.ruins@, w.ruins@.len() as int) {
            Some(i) => Some((TargetEnum::Ruin(w.ruins@[i].id), w.ruins@[i].range)),
            None => match w.closest_source {
                Some(s) => Some((TargetEnum::Source(s.id), s.range)),
                None => None,
            },
        }
    }
}

/// Whether resource is scarce in the agent's home area: less than half the
/// spawning capacity is available.
pub open spec fn scarce(w: WorldSnapshot) -> bool {
    (w.energy_available as int) < (w.energy_capacity as int) / 2
}

/// The better of the closest eligible structure and the closest construction
/// site, in distance-then-priority order.
pub open spec fn range_fallback_spec(w: WorldSnapshot) -> Option<(TargetEnum, u32)> {
    let bs = best_dest_range(w.structures@, w.structures@.len() as int);
    let bc = best_site(w.sites@, w.sites@.len() as int);
    match (bs, bc) {
        (Some(i), Some(j)) => {
            let s = w.structures@[i];
            let c = w.sites@[j];
            if s.range < c.range || (s.range == c.range && dest_rank(s.kind) < site_rank()) {
                Some((struct_target(s), s.range))
            } else {
                Some((TargetEnum::ConstructionSite(c.id), c.range))
            }
        },
        (Some(i), None) => (Some(
            (struct_target(w.structures@[i]), w.structures@[i].range),
        )),
        (None, Some(j)) => Some((TargetEnum::ConstructionSite(w.sites@[j].id), w.sites@[j].range)),
        (None, None) => None,
    }
}

/// Where the agent should deliver. Skipped entirely for an empty agent.
/// Under scarcity, eligible structures are taken in priority-then-distance
/// order, with the nearest construction site as the fallback; otherwise the
/// nearest eligible structure in working range wins, and failing that the
/// nearest among all eligible structures and construction sites.
pub open spec fn destination_spec(agent: AgentState, w: WorldSnapshot) -> Option<
    (TargetEnum, u32),
> {
    if agent.used == 0 {
        None
    } else if scarce(w) {
        match best_dest_prio(w.structures@, w.structures@.len() as int) {
            Some(i) => Some((struct_target(w.structures@[i]), w.structures@[i].range)),
            None => match best_site(w.sites@, w.sites@.len() as int) {
                Some(j) => Some((TargetEnum::ConstructionSite(w.sites@[j].id), w.sites@[j].range)),
                None => None,
            },
        }
    } else {
        match best_dest_near(w.structures@, w.structures@.len() as int) {
            Some(i) => Some((struct_target(w.structures@[i]), w.structures@[i].range)),
            None => range_fallback_spec(w),
        }
    }
}

/// The target the heuristic picks. With both an origin and a destination
/// candidate, the products `used * (origin range - 1)` and
/// `free * (destination range - 1)` are compared, and the destination is
/// chosen when the former — the cost of hauling the current load further —
/// is the larger or equal; with one candidate, that one; with none, the
/// agent stays idle.
pub open spec fn acquire_spec(agent: AgentState, w: WorldSnapshot) -> Option<TargetEnum> {
    match (destination_spec(agent, w), origin_spec(agent, w)) {
        (Some(d), Some(o)) => {
            if (agent.used as int) * (o.1 as int - 1) < (agent.free as int) * (d.1 as int - 1) {
                Some(o.0)
            } else {
                Some(d.0)
            }
        },
        (None, Some(o)) => Some(o.0),
        (Some(d), None) => Some(d.0),
        (None, None) => None,
    }
}

/// Whether a target is an origin (a place to collect from).
pub open spec fn is_origin_target(t: TargetEnum) -> bool {
    t is Ruin || t is Source
}

/// Computes the origin candidate of [`origin_spec`].
pub fn origin_candidate(agent: &AgentState, w: &WorldSnapshot) -> (r: Option<(TargetEnum, u32)>)
    ensures
        r == origin_spec(*agent, *w),
{
    if agent.free == 0 {
        return None;
    }
    proof {
        lemma_best_ruin_bounds(w.ruins@, w.ruins@.len() as int);
    }
    match try_origin_ruin(&w.ruins) {
        Some(i) => Some((TargetEnum::Ruin(w.ruins[i].id), w.ruins[i].range)),
        None => match &w.closest_source {
            Some(s) => Some((TargetEnum::Source(s.id), s.range)),
            None => None,
        },
    }
}

/// The binding an eligible structure candidate selects.
fn struct_target_exec(s: &StructCand) -> (t: TargetEnum)
    ensures
        t == struct_target(*s),
{
    match s.kind {
        StructKind::Extension => TargetEnum::Extension(s.id),
        StructKind::Spawn => TargetEnum::Spawn(s.id),
        StructKind::Controller => TargetEnum::Controller(s.id),
    }
}

/// Computes the destination candidate of [`destination_spec`].
pub fn destination_candidate(agent: &AgentState, w: &WorldSnapshot) -> (r: Option<
    (TargetEnum, u32),
>)
    ensures
        r == destination_spec(*agent, *w),
{
    if agent.used == 0 {
        return None;
    }
    proof {
        lemma_best_dest_prio_bounds(w.structures@, w.structures@.len() as int);
        lemma_best_dest_near_bounds(w.structures@, w.structures@.len() as int);
        lemma_best_dest_range_bounds(w.structures@, w.structures@.len() as int);
        lemma_best_site_bounds(w.sites@, w.sites@.len() as int);
    }
    if w.energy_available < w.energy_capacity / 2 {
        match try_dest_structure(&w.structures) {
            Some(i) => Some((struct_target_exec(&w.structures[i]), w.structures[i].range)),
            None => match try_dest_construction_site(&w.sites) {
                Some(j) => Some((TargetEnum::ConstructionSite(w.sites[j].id), w.sites[j].range)),
                None => None,
            },
        }
    } else {
        match try_dest_structure_near(&w.structures) {
            Some(i) => Some((struct_target_exec(&w.structures[i]), w.structures[i].range)),
            None => {
                let bs = try_dest_structure_by_range(&w.structures);
                let bc = try_dest_construction_site(&w.sites);
                match (bs, bc) {
                    (Some(i), Some(j)) => {
                        let s = &w.structures[i];
                        let c = &w.sites[j];
                        if s.range < c.range || (s.range == c.range && dest_rank_exec(s.kind) < 2) {
                            Some((struct_target_exec(s), s.range))
                        } else {
                            Some((TargetEnum::ConstructionSite(c.id), c.range))
                        }
                    },
                    (Some(i), None) => Some(
                        (struct_target_exec(&w.structures[i]), w.structures[i].range),
                    ),
                    (None, Some(j)) => Some(
                        (TargetEnum::ConstructionSite(w.sites[j].id), w.sites[j].range),
                    ),
                    (None, None) => None,
                }
            },
        }
    }
}

/// Acquires a target for an agent without one.
///
/// The agent can be full, empty or in between; an agent with no free
/// capacity is never sent collecting, an empty agent never delivering, and
/// with candidates on both sides the delivery leg is preferred exactly when
/// hauling the current load further would cost at least as much as the
/// remaining collection trip. Returns `None` when no candidate exists; the
/// agent then stays idle this tick.
pub fn acquire_job(agent: &AgentState, w: &WorldSnapshot) -> (r: Option<TargetEnum>)
    ensures
        r == acquire_spec(*agent, *w),
        agent.free == 0 ==> !(r matches Some(t) && is_origin_target(t)),
        agent.used == 0 ==> !(r matches Some(t) && !is_origin_target(t)),
{
    let destination = destination_candidate(agent, w);
    let origin = origin_candidate(agent, w);
    match (destination, origin) {
        (Some(d), Some(o)) => {
            proof {
                let u = agent.used as int;
                let f = agent.free as int;
                let ro = o.1 as int;
                let rd = d.1 as int;
                assert((-0x100000000 <= u * (ro - 1) <= 0x100000000 * 0x100000000) && (
                -0x80000000 * 0x100000000 <= f * (rd - 1) <= 0x80000000 * 0x100000000))
                    by (nonlinear_arith)
                    requires
                        0 <= u < 0x100000000,
                        -0x80000000 <= f < 0x80000000,
                        0 <= ro < 0x100000000,
                        0 <= rd < 0x100000000,
                ;
            }
            if (agent.used as i128) * (o.1 as i128 - 1) < (agent.free as i128) * (d.1 as i128
                - 1) {
                Some(o.0)
            } else {
                Some(d.0)
            }
        },
        (None, Some(o)) => Some(o.0),
        (Some(d), None) => Some(d.0),
        (None, None) => None,
    }
}

} // verus!
