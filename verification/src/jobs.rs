//! Jobs: stable target identities, the job registry, and the bid model.
//!
//! A job is backed by a stable world-object identity, never by a live object
//! reference: live references are only valid for one tick, so the underlying
//! object is re-resolved every tick and a failed resolution means the job's
//! object has vanished.

use vstd::prelude::*;
use crate::creeps::CreepName;
use crate::hiring::Bipartite;

verus! {

/// A signed valuation used to rank candidate agent-job pairings.
pub type Credit = i64;

/// An agent's lock on a specific target, stored as the stable identity of the
/// underlying world object so that a fresh reference can be fetched each tick.
#[derive(Debug, PartialEq, Eq, Structural, Clone, Copy, Hash)]
pub enum TargetEnum {
    /// Harvest this source.
    Source(u128),
    /// Withdraw from this ruin.
    Ruin(u128),
    /// Deposit into this extension.
    Extension(u128),
    /// Deposit into this spawn.
    Spawn(u128),
    /// Build this construction site.
    ConstructionSite(u128),
    /// Upgrade this controller.
    Controller(u128),
}

/// Key of a job in the registry: derived from the underlying world object's
/// stable identity, never from a live reference.
#[derive(Debug, PartialEq, Eq, Structural, Clone, Copy, Hash)]
pub enum JobKey {
    /// The raw stable object identity.
    RawObjectId(u128),
}

/// Marker used to keep the blanket conversions into [`JobKey`] apart.
pub trait IntoJobKeyMarker {}

/// Conversion of an object handle into the key its job is registered under.
pub trait IntoJobKey<Marker: IntoJobKeyMarker> {
    /// The job key for this object.
    fn into_key(self) -> JobKey;
}

/// Marker for the conversion from a raw stable identity.
pub struct MarkerFromRawId {}

impl IntoJobKeyMarker for MarkerFromRawId {}

impl IntoJobKey<MarkerFromRawId> for u128 {
    fn into_key(self) -> (k: JobKey)
        ensures
            k == JobKey::RawObjectId(self),
    {
        JobKey::RawObjectId(self)
    }
}

/// Error from assigning an agent to a job or freeing it again.
#[derive(Debug, PartialEq, Eq, Clone)]
pub enum CreepJobError {
    /// The job has no open slot left.
    NotEnough,
    /// The agent is not assigned to this job.
    NotHere,
    /// An inconsistency that should never occur, described in words.
    Other(String),
}

/// What the supply-spawn job reads off its resolved spawn each tick. The
/// job itself stores only the stable identity; a missing view means the
/// resolution failed this tick.
#[derive(Debug, PartialEq, Eq, Structural, Clone, Copy)]
pub struct SpawnView {
    /// Free store capacity of the spawn for the supplied resource.
    pub free_energy: i32,
    /// Total store capacity of the spawn for the supplied resource.
    pub store_capacity: u32,
    /// Largest spawning capacity of the spawn's home area.
    pub room_energy_capacity: u32,
}

/// An optional borrowed view as the mathematical option it stands for.
pub open spec fn spec_view(v: Option<&SpawnView>) -> Option<SpawnView> {
    match v {
        Some(x) => Some(*x),
        None => None,
    }
}

/// The job of keeping a spawn supplied with resource.
#[derive(Debug, PartialEq, Eq, Structural, Clone, Copy)]
pub struct SupplySpawnTarget {
    /// Stable identity of the spawn.
    pub spawn: u128,
}

/// Store size fallback when the spawn cannot be resolved.
pub const FALLBACK_STORE_SIZE: u32 = 300;

/// Carry size fallback when the spawn cannot be resolved.
pub const FALLBACK_CARRY_SIZE: u32 = 50;

impl SupplySpawnTarget {
    /// Store size of the spawn, with a conservative fallback when the spawn
    /// cannot be resolved.
    pub open spec fn store_size_spec(view: Option<SpawnView>) -> int {
        match view {
            None => FALLBACK_STORE_SIZE as int,
            Some(v) => v.store_capacity as int,
        }
    }

    /// Store size of the spawn this tick.
    pub fn store_size(view: Option<&SpawnView>) -> (r: u32)
        ensures
            r as int == Self::store_size_spec(spec_view(view)),
    {
        match view {
            None => FALLBACK_STORE_SIZE,
            Some(v) => v.store_capacity,
        }
    }

    /// The average amount one agent delivers here: a quarter of the area's
    /// spawning capacity, but no more than the store itself, with a
    /// conservative fallback when the spawn cannot be resolved.
    pub open spec fn carry_size_spec(view: Option<SpawnView>) -> int {
        match view {
            None => FALLBACK_CARRY_SIZE as int,
            Some(v) => {
                let quarter = (v.room_energy_capacity as int) / 4;
                if quarter < v.store_capacity as int {
                    quarter
                } else {
                    v.store_capacity as int
                }
            },
        }
    }

    /// The average delivery size used to split the store into agent slots.
    pub fn carry_size(view: Option<&SpawnView>) -> (r: u32)
        ensures
            r as int == Self::carry_size_spec(spec_view(view)),
    {
        match view {
            None => FALLBACK_CARRY_SIZE,
            Some(v) => {
                let quarter = v.room_energy_capacity / 4;
                if quarter < v.store_capacity {
                    quarter
                } else {
                    v.store_capacity
                }
            },
        }
    }

    /// How many agents the job can absorb concurrently: the store size split
    /// into average deliveries, rounded up.
    pub open spec fn capacity_spec(view: Option<SpawnView>) -> int {
        let store = Self::store_size_spec(view);
        let carry = Self::carry_size_spec(view);
        if store <= 0 {
            0
        } else {
            (store - 1) / carry + 1
        }
    }

    /// How many agents the job can absorb concurrently this tick.
    pub fn capacity(view: Option<&SpawnView>) -> (r: usize)
        requires
            Self::carry_size_spec(spec_view(view)) > 0,
        ensures
            r as int == Self::capacity_spec(spec_view(view)),
    {
        let store = Self::store_size(view);
        let carry = Self::carry_size(view);
        if store == 0 {
            0
        } else {
            (((store - 1) / carry) + 1) as usize
        }
    }

    /// The bid this job makes for an agent: the throughput the agent can
    /// deliver this tick, capped by the agent's cargo and by the job's free
    /// capacity split across its slots, scaled to credit. A job whose spawn
    /// cannot be resolved bids nothing.
    pub open spec fn offer_spec(view: Option<SpawnView>, used: u32) -> Credit {
        match view {
            None => 0,
            Some(v) => {
                let slot_free = (v.free_energy as int) / Self::capacity_spec(Some(v));
                let deliverable = if (used as int) < slot_free {
                    used as int
                } else {
                    slot_free
                };
                (100 * deliverable) as Credit
            },
        }
    }

    /// The bid this job makes for an agent carrying `used` resource.
    pub fn offer(view: Option<&SpawnView>, used: u32) -> (r: Credit)
        requires
            Self::carry_size_spec(spec_view(view)) > 0,
            spec_view(view) matches Some(v) ==> v.free_energy >= 0 && v.store_capacity > 0,
        ensures
            r == Self::offer_spec(spec_view(view), used),
    {
        match view {
            None => 0,
            Some(v) => {
                let cap = Self::capacity(view);
                let slot_free: u64 = (v.free_energy as u64) / (cap as u64);
                let deliverable: u64 = if (used as u64) < slot_free {
                    used as u64
                } else {
                    slot_free
                };
                (100 * deliverable) as Credit
            },
        }
    }
}

/// A job's capacity is never negative: an unresolvable spawn falls back to
/// a positive constant, and a resolvable one gets its store split into at
/// least one slot whenever the store is non-empty.
pub proof fn lemma_capacity_nonneg(view: Option<SpawnView>)
    requires
        SupplySpawnTarget::carry_size_spec(view) > 0,
    ensures
        SupplySpawnTarget::capacity_spec(view) >= 0,
        SupplySpawnTarget::store_size_spec(view) > 0 ==> SupplySpawnTarget::capacity_spec(view)
            >= 1,
{
}

/// The relocation cost a candidate pairing is discounted by: the distance
/// from the agent to the job, scaled by the agent's per-tick running cost.
/// A job with no resolvable position costs nothing to reach.
pub open spec fn relocation_cost_spec(range: Option<u32>, body_cost: u32) -> Credit {
    match range {
        None => 0,
        Some(d) => ((d as int) * (body_cost as int)) as Credit,
    }
}

/// Computes the relocation discount for an agent at `range` from the job.
pub fn relocation_cost(range: Option<u32>, body_cost: u32) -> (r: Credit)
    requires
        range matches Some(d) ==> (d as int) * (body_cost as int) <= i64::MAX,
    ensures
        r == relocation_cost_spec(range, body_cost),
{
    match range {
        None => 0,
        Some(d) => {
            proof {
                assert((d as int) * (body_cost as int) >= 0) by (nonlinear_arith);
            }
            ((d as u64) * (body_cost as u64)) as Credit
        },
    }
}

/// The net weight of a candidate pairing: the job's bid for the agent minus
/// the cost of relocating the agent to it.
pub fn edge_weight(offer: Credit, relocation: Credit) -> (r: Credit)
    requires
        offer >= 0,
        relocation >= 0,
    ensures
        r == offer - relocation,
{
    offer - relocation
}

/// What executing a supply-spawn job for one agent concluded, before any
/// movement fallback.
#[derive(Debug, PartialEq, Eq, Structural, Clone, Copy)]
pub enum ExecuteVerdict {
    /// The job came to an end for this agent (delivered, target full, agent
    /// empty, or the spawn vanished).
    Finished,
    /// The agent is out of range: attempt a move, then classify it with
    /// [`supply_spawn_after_move`].
    NeedMove,
    /// The agent is incapable: remove it from the world; the job is then
    /// finished for it.
    RemoveAgentThenFinish,
    /// An outcome code outside the expected set: abort the tick loudly.
    Fatal(crate::outcome::Outcome),
}

/// How executing a supply-spawn job classifies the transfer outcome: an
/// unresolvable spawn ends the job gracefully, delivery and saturation end
/// it normally, and out-of-range asks for a movement fallback.
pub open spec fn supply_spawn_execute_spec(
    resolved: bool,
    o: crate::outcome::Outcome,
) -> ExecuteVerdict {
    if !resolved {
        ExecuteVerdict::Finished
    } else {
        match o {
            crate::outcome::Outcome::Success => ExecuteVerdict::Finished,
            crate::outcome::Outcome::NotInRange => ExecuteVerdict::NeedMove,
            crate::outcome::Outcome::Full => ExecuteVerdict::Finished,
            crate::outcome::Outcome::NotEnough => ExecuteVerdict::Finished,
            crate::outcome::Outcome::NoBodypart => ExecuteVerdict::RemoveAgentThenFinish,
            _ => ExecuteVerdict::Fatal(o),
        }
    }
}

/// Classifies one execution attempt of a supply-spawn job.
pub fn supply_spawn_execute(resolved: bool, o: crate::outcome::Outcome) -> (r: ExecuteVerdict)
    ensures
        r == supply_spawn_execute_spec(resolved, o),
{
    if !resolved {
        ExecuteVerdict::Finished
    } else {
        match o {
            crate::outcome::Outcome::Success => ExecuteVerdict::Finished,
            crate::outcome::Outcome::NotInRange => ExecuteVerdict::NeedMove,
            crate::outcome::Outcome::Full => ExecuteVerdict::Finished,
            crate::outcome::Outcome::NotEnough => ExecuteVerdict::Finished,
            crate::outcome::Outcome::NoBodypart => ExecuteVerdict::RemoveAgentThenFinish,
            _ => ExecuteVerdict::Fatal(o),
        }
    }
}

/// Whether the movement fallback of a supply-spawn job leaves the job
/// finished: moving or benignly waiting keeps it alive, any movement
/// failure ends it for this agent.
pub open spec fn supply_spawn_after_move_spec(m: crate::executor::StepVerdict) -> bool {
    !(m is Report)
}

/// Classifies the movement fallback of a supply-spawn job: returns whether
/// the job is finished for this agent.
pub fn supply_spawn_after_move(m: &crate::executor::StepVerdict) -> (finished: bool)
    ensures
        finished == supply_spawn_after_move_spec(*m),
{
    !matches!(m, crate::executor::StepVerdict::Report(_))
}

/// The kind-specific part of a job, a closed sum over the task kinds.
#[derive(Debug, PartialEq, Eq, Structural, Clone, Copy)]
pub enum JobTarget {
    /// Keep a spawn supplied.
    SupplySpawn(SupplySpawnTarget),
}

/// A job: the agents assigned to it and the target it works on.
#[derive(Debug)]
pub struct CreepJob {
    /// Names of the agents currently assigned to this job.
    pub creeps: Vec<CreepName>,
    /// The target this job works on.
    pub target: JobTarget,
}

/// The assigned agents of `s` with every occurrence of `name` removed,
/// considering the first `n` of them.
pub open spec fn without_name(s: Seq<CreepName>, n: int, name: Seq<char>) -> Seq<CreepName>
    decreases n,
{
    if n <= 0 {
        Seq::empty()
    } else {
        let p = without_name(s, n - 1, name);
        if s[n - 1]@ == name {
            p
        } else {
            p.push(s[n - 1])
        }
    }
}

/// How often `name` occurs among the first `n` assigned agents of `s`.
pub open spec fn count_name(s: Seq<CreepName>, n: int, name: Seq<char>) -> int
    decreases n,
{
    if n <= 0 {
        0
    } else {
        count_name(s, n - 1, name) + if s[n - 1]@ == name {
            1int
        } else {
            0int
        }
    }
}

impl CreepJob {
    /// Creates a job for a target, with nobody assigned yet.
    pub fn new(target: JobTarget) -> (r: CreepJob)
        ensures
            r.creeps@.len() == 0,
            r.target == target,
    {
        CreepJob { creeps: Vec::new(), target }
    }

    /// Assigns an agent to this job if a slot below `capacity` is open;
    /// a saturated job takes nobody.
    pub fn try_assign(&mut self, name: CreepName, capacity: usize) -> (r: Result<
        (),
        CreepJobError,
    >)
        ensures
            old(self).creeps@.len() < capacity ==> r is Ok && final(self).creeps@ == old(self).creeps@.push(name) && final(self).target == old(self).target,
            old(self).creeps@.len() >= capacity ==> r == Err::<(), CreepJobError>(
                CreepJobError::NotEnough,
            ) && final(self).creeps@ == old(self).creeps@ && final(self).target == old(self).target,
    {
        if self.creeps.len() < capacity {
            self.creeps.push(name);
            Ok(())
        } else {
            Err(CreepJobError::NotEnough)
        }
    }

    /// Frees an agent from this job: every occurrence of its name leaves the
    /// assigned list. One occurrence is the normal case; none means the
    /// agent was not here, more than one an inconsistency.
    pub fn try_free(&mut self, name: &CreepName) -> (r: Result<(), CreepJobError>)
        ensures
            final(self).creeps@ == without_name(
                old(self).creeps@,
                old(self).creeps@.len() as int,
                name@,
            ),
            final(self).target == old(self).target,
            ({
                let c = count_name(old(self).creeps@, old(self).creeps@.len() as int, name@);
                match r {
                    Ok(()) => c == 1,
                    Err(CreepJobError::NotHere) => c == 0,
                    Err(CreepJobError::Other(_)) => c > 1,
                    Err(_) => false,
                }
            }),
    {
        let ghost pre = self.creeps@;
        let mut kept: Vec<CreepName> = Vec::new();
        let mut removed: usize = 0;
        let mut i: usize = 0;
        while i < self.creeps.len()
            invariant
                i <= self.creeps@.len(),
                self.creeps@ == pre,
                kept@ == without_name(pre, i as int, name@),
                removed <= i,
                removed as int == count_name(pre, i as int, name@),
            decreases self.creeps@.len() - i,
        {
            let c = self.creeps[i].clone();
            if c == *name {
                removed = removed + 1;
            } else {
                kept.push(c);
            }
            i = i + 1;
        }
        self.creeps = kept;
        if removed == 1 {
            Ok(())
        } else if removed == 0 {
            Err(CreepJobError::NotHere)
        } else {
            Err(CreepJobError::Other("duplicate name in job creep list.".to_owned()))
        }
    }
}

/// The registry of live jobs, keyed by stable identity: the only ownership
/// path to a job. Agents hold the key, never the job, so a job whose
/// underlying object vanished is detected on the next access and purged.
#[derive(Debug)]
pub struct JobRegistry {
    /// The live jobs, each under its key.
    pub entries: Vec<(JobKey, CreepJob)>,
}

/// How many of the first `n` selected offers are directed at job `q`.
pub open spec fn sel_count(
    offers: Seq<(usize, usize, Credit)>,
    sel: Seq<int>,
    q: int,
    n: int,
) -> int
    decreases n,
{
    if n <= 0 {
        0
    } else {
        sel_count(offers, sel, q, n - 1) + if (offers[sel[n - 1]].0 as int) == q {
            1int
        } else {
            0int
        }
    }
}

/// Counting selected offers at a job reads only the selection prefix.
pub proof fn lemma_sel_count_prefix(
    offers: Seq<(usize, usize, Credit)>,
    sel1: Seq<int>,
    sel2: Seq<int>,
    q: int,
    n: int,
)
    requires
        forall|k: int| 0 <= k < n ==> #[trigger] sel1[k] == sel2[k],
    ensures
        sel_count(offers, sel1, q, n) == sel_count(offers, sel2, q, n),
    decreases n,
{
    if n > 0 {
        lemma_sel_count_prefix(offers, sel1, sel2, q, n - 1);
    }
}

/// Whether one of the selected offers binds agent `b`.
pub open spec fn sel_has_agent(
    offers: Seq<(usize, usize, Credit)>,
    sel: Seq<int>,
    b: int,
) -> bool {
    exists|k: int| 0 <= k < sel.len() && (offers[#[trigger] sel[k]].1 as int) == b
}

/// Offer `x` is blocked by the selection: its job is filled to capacity and
/// no offer selected there is strictly weaker.
pub open spec fn offer_blocked(
    jobs: Seq<(JobKey, usize)>,
    offers: Seq<(usize, usize, Credit)>,
    sel: Seq<int>,
    x: int,
) -> bool {
    let q = offers[x].0 as int;
    &&& sel_count(offers, sel, q, sel.len() as int) >= jobs[q].1
    &&& forall|k: int|
        0 <= k < sel.len() && (offers[#[trigger] sel[k]].0 as int) == q ==> offers[sel[k]].2
            >= offers[x].2
}

/// The selection `sel` — a sequence of offer indices — and its rendering
/// `r` form a capacity-respecting, locally maximal assignment: each
/// selected agent appears exactly once (the selection is strictly
/// increasing by agent), each rendered pair is the selected agent's name
/// with the key of the selected offer's job, no job takes more selected
/// offers than its capacity, and every offer of an unselected agent is
/// blocked.
pub open spec fn valid_assignment(
    jobs: Seq<(JobKey, usize)>,
    agents: Seq<CreepName>,
    offers: Seq<(usize, usize, Credit)>,
    sel: Seq<int>,
    r: Seq<(CreepName, JobKey)>,
) -> bool {
    &&& r.len() == sel.len()
    &&& forall|k: int|
        0 <= k < sel.len() ==> 0 <= #[trigger] sel[k] < offers.len() && (offers[sel[k]].1 as int)
            < agents.len() && (offers[sel[k]].0 as int) < jobs.len()
    &&& forall|k1: int, k2: int|
        0 <= k1 < k2 < sel.len() ==> (offers[#[trigger] sel[k1]].1 as int) < (offers[
        #[trigger] sel[k2]].1 as int)
    &&& forall|k: int|
        0 <= k < sel.len() ==> (#[trigger] r[k]) == (
        agents[offers[sel[k]].1 as int],
        jobs[offers[sel[k]].0 as int].0,
        )
    &&& forall|q: int|
        0 <= q < jobs.len() ==> sel_count(offers, sel, q, sel.len() as int) <= (
        #[trigger] jobs[q]).1
    &&& forall|b: int|
        0 <= b < agents.len() && !(#[trigger] sel_has_agent(offers, sel, b)) ==> forall|x: int|
            0 <= x < offers.len() && ((#[trigger] offers[x]).1 as int) == b ==> offer_blocked(
                jobs,
                offers,
                sel,
                x,
            )
}

impl JobRegistry {
    /// Each key owns at most one job.
    pub open spec fn wf(self) -> bool {
        forall|i: int, j: int|
            0 <= i < j < self.entries@.len() ==> self.entries@[i].0 != self.entries@[j].0
    }

    /// Whether a job is registered under this key.
    pub open spec fn has_job(self, k: JobKey) -> bool {
        exists|i: int| 0 <= i < self.entries@.len() && self.entries@[i].0 == k
    }

    /// Creates an empty registry.
    pub fn new() -> (r: JobRegistry)
        ensures
            r.wf(),
            r.entries@.len() == 0,
    {
        JobRegistry { entries: Vec::new() }
    }

    /// Finds the index of the job under this key, if any.
    pub fn find(&self, k: &JobKey) -> (r: Option<usize>)
        ensures
            match r {
                Some(i) => i < self.entries@.len() && self.entries@[i as int].0 == *k,
                None => !self.has_job(*k),
            },
    {
        let mut i: usize = 0;
        while i < self.entries.len()
            invariant
                i <= self.entries@.len(),
                forall|j: int| 0 <= j < i ==> self.entries@[j].0 != *k,
            decreases self.entries@.len() - i,
        {
            if self.entries[i].0 == *k {
                return Some(i);
            }
            i = i + 1;
        }
        None
    }

    /// Registers a job under a key nobody holds yet; an occupied key is left
    /// untouched and reported.
    pub fn add_job(&mut self, k: JobKey, job: CreepJob) -> (added: bool)
        requires
            old(self).wf(),
        ensures
            final(self).wf(),
            added == !old(self).has_job(k),
            added ==> final(self).entries@ == old(self).entries@.push((k, job)),
            !added ==> final(self).entries@ == old(self).entries@,
    {
        match self.find(&k) {
            Some(_) => false,
            None => {
                self.entries.push((k, job));
                proof {
                    let m = self.entries@.len() - 1;
                    assert forall|i: int, j: int|
                        0 <= i < j < self.entries@.len() implies self.entries@[i].0
                        != self.entries@[j].0 by {
                        if j < m {
                            assert(old(self).entries@[i].0 != old(self).entries@[j].0);
                        } else {
                            assert(old(self).entries@[i] == self.entries@[i]);
                        }
                    }
                }
                true
            },
        }
    }

    /// Computes one tick's assignment of agents to jobs. Each job comes
    /// with its capacity, each offer as `(job, agent, net weight)` over the
    /// two index spaces. The result renders a selection of offers that is a
    /// capacity-respecting, locally maximal matching — see
    /// [`valid_assignment`]: each selected agent appears exactly once,
    /// paired with the key of the job of its selected offer; no job takes
    /// more selected offers than its capacity; and every offer of an
    /// unselected agent is blocked, its job filled to capacity with no
    /// strictly weaker selection there.
    pub fn compute_assignment(
        jobs: Vec<(JobKey, usize)>,
        agents: Vec<CreepName>,
        offers: Vec<(usize, usize, Credit)>,
    ) -> (r: Vec<(CreepName, JobKey)>)
        requires
            forall|x: int|
                0 <= x < offers@.len() ==> (#[trigger] offers@[x]).0 < jobs@.len()
                    && offers@[x].1 < agents@.len(),
            offers@.len() + agents@.len() < usize::MAX,
        ensures
            r@.len() <= agents@.len(),
            exists|sel: Seq<int>| valid_assignment(jobs@, agents@, offers@, sel, r@),
    {
        let ghost offers_view = offers@;
        let mut g: Bipartite<JobKey, (), i64> = Bipartite::new();
        let mut i: usize = 0;
        while i < jobs.len()
            invariant
                g.wf(),
                i <= jobs@.len(),
                g.posts@.len() == i,
                g.applicants@.len() == 0,
                g.edges@.len() == 0,
                forall|q: int|
                    0 <= q < i ==> (#[trigger] g.posts@[q]).post == jobs@[q].0
                        && g.posts@[q].capacity == jobs@[q].1,
            decreases jobs@.len() - i,
        {
            let (key, cap) = jobs[i];
            g.add_post(key, cap);
            i = i + 1;
        }
        let mut i: usize = 0;
        while i < agents.len()
            invariant
                g.wf(),
                i <= agents@.len(),
                g.posts@.len() == jobs@.len(),
                g.applicants@.len() == i,
                g.edges@.len() == 0,
                forall|q: int|
                    0 <= q < jobs@.len() ==> (#[trigger] g.posts@[q]).post == jobs@[q].0
                        && g.posts@[q].capacity == jobs@[q].1,
                forall|b: int|
                    0 <= b < i ==> (#[trigger] g.applicants@[b]).neighbours@.len() == 0
                        && g.applicants@[b].current_post is None
                        && g.applicants@[b].open_to_work,
            decreases agents@.len() - i,
        {
            g.add_applicant(());
            i = i + 1;
        }
        let ghost g_nodes = g;
        g.extend_edges(offers);
        let ghost g_ext = g;
        g.run_matching();
        let mut r: Vec<(CreepName, JobKey)> = Vec::new();
        let ghost mut sel: Seq<int> = Seq::empty();
        let mut a: usize = 0;
        proof {
            assert forall|q: int|
                0 <= q < jobs@.len() implies sel_count(offers_view, sel, q, sel.len() as int)
                == g.matched_below(q, 0, g.posts@[q].current_applicants@.len() as int) by {
                g.lemma_matched_below_zero(q, g.posts@[q].current_applicants@.len() as int);
            }
        }
        while a < g.applicants.len()
            invariant
                g.wf(),
                a <= g.applicants@.len(),
                g.applicants@.len() == agents@.len(),
                g.posts@.len() == jobs@.len(),
                g.edges@.len() == offers_view.len(),
                offers_view == offers@,
                forall|x: int|
                    0 <= x < offers_view.len() ==> ((#[trigger] g.edges@[x]).p_i
                        == offers_view[x].0) && g.edges@[x].a_i == offers_view[x].1 && g.edges@[
                        x
                    ].weight == offers_view[x].2,
                forall|q: int|
                    0 <= q < jobs@.len() ==> (#[trigger] g.posts@[q]).post == jobs@[q].0
                        && g.posts@[q].capacity == jobs@[q].1,
                r@.len() <= a,
                r@.len() == sel.len(),
                forall|k: int| 0 <= k < sel.len() ==> 0 <= #[trigger] sel[k] < offers_view.len(),
                forall|k: int|
                    0 <= k < sel.len() ==> (offers_view[#[trigger] sel[k]].1 as int) < a
                        && g.applicants@[offers_view[sel[k]].1 as int].current_post == Some(
                        sel[k] as usize,
                    ),
                forall|k1: int, k2: int|
                    0 <= k1 < k2 < sel.len() ==> (offers_view[#[trigger] sel[k1]].1 as int) < (
                    offers_view[#[trigger] sel[k2]].1 as int),
                forall|k: int|
                    0 <= k < sel.len() ==> (#[trigger] r@[k]) == (
                    agents@[offers_view[sel[k]].1 as int],
                    jobs@[offers_view[sel[k]].0 as int].0,
                    ),
                forall|q: int|
                    0 <= q < jobs@.len() ==> #[trigger] sel_count(
                        offers_view,
                        sel,
                        q,
                        sel.len() as int,
                    ) == g.matched_below(q, a as int, g.posts@[q].current_applicants@.len() as int),
                forall|b2: int|
                    0 <= b2 < a ==> ((#[trigger] g.applicants@[b2]).current_post matches Some(e2)
                        ==> sel.contains(e2 as int)),
            decreases g.applicants@.len() - a,
        {
            proof {
                assert(g.appl_wf(a as int));
            }
            let ghost r0 = r@;
            let ghost sel0 = sel;
            match g.applicants[a].current_post {
                Some(e) => {
                    let p = g.edges[e].p_i;
                    let key = g.posts[p].post;
                    let name = agents[a].clone();
                    r.push((name, key));
                    proof {
                        sel = sel.push(e as int);
                        let k = sel.len() - 1;
                        let x = e as int;
                        assert(g.edges@[x].a_i == a);
                        assert((offers_view[x].1 as int) == a as int);
                        assert((offers_view[x].0 as int) == p as int);
                        assert(sel[k] == x);
                        assert(r@[k] == (agents@[a as int], jobs@[p as int].0));
                        assert forall|k2: int|
                            0 <= k2 < sel.len() implies 0 <= #[trigger] sel[k2]
                            < offers_view.len() && (offers_view[sel[k2]].1 as int) < a + 1
                            && g.applicants@[offers_view[sel[k2]].1 as int].current_post == Some(
                            sel[k2] as usize,
                        ) && r@[k2] == (
                        agents@[offers_view[sel[k2]].1 as int],
                        jobs@[offers_view[sel[k2]].0 as int].0,
                        ) by {
                            if k2 < k {
                                assert(sel[k2] == sel0[k2]);
                                assert(r@[k2] == r0[k2]);
                            }
                        }
                        assert forall|q: int|
                            0 <= q < jobs@.len() implies #[trigger] sel_count(
                            offers_view,
                            sel,
                            q,
                            sel.len() as int,
                        ) == g.matched_below(
                            q,
                            a as int + 1,
                            g.posts@[q].current_applicants@.len() as int,
                        ) by {
                            lemma_sel_count_prefix(offers_view, sel, sel0, q, sel0.len() as int);
                            if q == p as int {
                                g.lemma_matched_below_step_matched(q, a as int);
                            } else {
                                g.lemma_matched_below_step_unmatched(
                                    q,
                                    a as int,
                                    g.posts@[q].current_applicants@.len() as int,
                                );
                            }
                        }
                        assert forall|b2: int|
                            0 <= b2 < a + 1 implies ((#[trigger] g.applicants@[b2]).current_post
                            matches Some(e2) ==> sel.contains(e2 as int)) by {
                            match g.applicants@[b2].current_post {
                                Some(e2) => {
                                    if b2 < a as int {
                                        assert(sel0.contains(e2 as int));
                                        let j = choose|j: int|
                                            0 <= j < sel0.len() && sel0[j] == e2 as int;
                                        assert(sel[j] == e2 as int);
                                        assert(sel.contains(e2 as int));
                                    } else {
                                        assert(e2 == e);
                                        assert(sel[k] == e as int);
                                        assert(sel.contains(e2 as int));
                                    }
                                },
                                None => {},
                            }
                        }
                    }
                },
                None => {
                    proof {
                        assert forall|q: int|
                            0 <= q < jobs@.len() implies #[trigger] sel_count(
                            offers_view,
                            sel,
                            q,
                            sel.len() as int,
                        ) == g.matched_below(
                            q,
                            a as int + 1,
                            g.posts@[q].current_applicants@.len() as int,
                        ) by {
                            g.lemma_matched_below_step_unmatched(
                                q,
                                a as int,
                                g.posts@[q].current_applicants@.len() as int,
                            );
                        }
                    }
                },
            }
            a = a + 1;
        }
        proof {
            assert forall|q: int|
                0 <= q < jobs@.len() implies #[trigger] sel_count(
                offers_view,
                sel,
                q,
                sel.len() as int,
            ) == g.posts@[q].current_applicants@.len() by {
                g.lemma_matched_below_full(q, g.posts@[q].current_applicants@.len() as int);
            }
            assert forall|q: int|
                0 <= q < jobs@.len() implies sel_count(offers_view, sel, q, sel.len() as int) <= (
            #[trigger] jobs@[q]).1 by {
                assert(g.post_wf(q));
            }
            assert forall|b: int|
                0 <= b < agents@.len() && !(#[trigger] sel_has_agent(offers_view, sel, b))
                    implies forall|x: int|
                    0 <= x < offers_view.len() && ((#[trigger] offers_view[x]).1 as int) == b
                        ==> offer_blocked(jobs@, offers_view, sel, x) by {
                assert(g.applicants@[b].current_post is None) by {
                    match g.applicants@[b].current_post {
                        Some(e2) => {
                            assert(sel.contains(e2 as int));
                            let j = choose|j: int| 0 <= j < sel.len() && sel[j] == e2 as int;
                            assert(g.appl_wf(b));
                            assert(g.edges@[e2 as int].a_i == b);
                            assert((offers_view[sel[j]].1 as int) == b);
                            assert(sel_has_agent(offers_view, sel, b));
                        },
                        None => {},
                    }
                }
                assert forall|x: int|
                    0 <= x < offers_view.len() && ((offers_view[x]).1 as int) == b
                        implies offer_blocked(jobs@, offers_view, sel, x) by {
                    assert(g_ext.applicants@[(offers_view[x].1) as int].open_to_work);
                    assert(g.applicants@[b].open_to_work) by {
                        if !g.applicants@[b].open_to_work {
                            assert(g.applicants@[b] == g_ext.applicants@[b]);
                        }
                    }
                    assert(g.no_option(b));
                    assert(g.applicants@[b].neighbours@ == g_ext.applicants@[b].neighbours@);
                    assert(g_ext.applicants@[b].neighbours@ == g_nodes.applicants@[b].neighbours@
                        + Bipartite::<JobKey, (), i64>::appl_batch(
                        offers_view,
                        0,
                        b,
                        offers_view.len() as int,
                    ));
                    assert(g_ext.applicants@[b].neighbours@ =~= Bipartite::<
                        JobKey,
                        (),
                        i64,
                    >::appl_batch(offers_view, 0, b, offers_view.len() as int));
                    Bipartite::<JobKey, (), i64>::lemma_appl_batch_contains(
                        offers_view,
                        0,
                        b,
                        x,
                        offers_view.len() as int,
                    );
                    assert(g.applicants@[b].neighbours@.contains(x as usize));
                    let j = choose|j: int|
                        0 <= j < g.applicants@[b].neighbours@.len() && g.applicants@[b]
                            .neighbours@[j] == (x as usize);
                    assert(g.edge_dead((g.applicants@[b].neighbours@[j]) as int));
                    assert(g.edge_dead(x));
                    let q = offers_view[x].0 as int;
                    assert((g.edges@[x].p_i as int) == q);
                    assert(g.posts@[q].current_applicants@.len() >= g.posts@[q].capacity);
                    assert(sel_count(offers_view, sel, q, sel.len() as int) >= jobs@[q].1);
                    assert forall|k: int|
                        0 <= k < sel.len() && (offers_view[#[trigger] sel[k]].0 as int) == q
                            implies offers_view[sel[k]].2 >= offers_view[x].2 by {
                        let ee = sel[k];
                        let bk = offers_view[ee].1 as int;
                        assert(g.applicants@[bk].current_post == Some(ee as usize));
                        assert(g.appl_wf(bk));
                        assert((g.edges@[ee].p_i as int) == q);
                        assert(g.posts@[q].current_applicants@.contains(ee as usize));
                        let kk = choose|kk: int|
                            0 <= kk < g.posts@[q].current_applicants@.len() && g.posts@[q]
                                .current_applicants@[kk] == (ee as usize);
                        assert(g.edges@[(g.posts@[q].current_applicants@[kk]) as int].weight
                            >= g.edges@[x].weight);
                        assert(g.edges@[ee].weight == offers_view[ee].2);
                    }
                    assert(offer_blocked(jobs@, offers_view, sel, x));
                }
            }
            assert(valid_assignment(jobs@, agents@, offers_view, sel, r@));
        }
        r
    }

    /// Notes the result of re-resolving a job's underlying object: if the
    /// resolution failed the job is purged and its assigned agents are
    /// returned so the caller can release them; a resolvable job is left
    /// untouched.
    pub fn purge_if_unresolved(&mut self, k: &JobKey, resolved: bool) -> (freed: Vec<CreepName>)
        requires
            old(self).wf(),
        ensures
            final(self).wf(),
            resolved ==> final(self).entries@ == old(self).entries@ && freed@.len() == 0,
            !resolved ==> !final(self).has_job(*k),
            !resolved && !old(self).has_job(*k) ==> final(self).entries@ == old(self).entries@
                && freed@.len() == 0,
            !resolved && old(self).has_job(*k) ==> exists|i: int|
                0 <= i < old(self).entries@.len() && old(self).entries@[i].0 == *k
                && final(self).entries@ == old(self).entries@.remove(i)
                && freed@ == old(self).entries@[i].1.creeps@,
    {
        if resolved {
            return Vec::new();
        }
        match self.find(k) {
            Some(i) => {
                let (_, job) = self.entries.remove(i);
                proof {
                    let pre = old(self).entries@;
                    let post = self.entries@;
                    assert forall|j: int, l: int|
                        0 <= j < l < post.len() implies post[j].0 != post[l].0 by {
                        let j0 = if j < i as int { j } else { j + 1 };
                        let l0 = if l < i as int { l } else { l + 1 };
                        assert(post[j] == pre[j0] && post[l] == pre[l0]);
                        assert(pre[j0].0 != pre[l0].0);
                    }
                    assert forall|j: int| 0 <= j < post.len() implies post[j].0 != *k by {
                        let j0 = if j < i as int { j } else { j + 1 };
                        assert(post[j] == pre[j0]);
                        if j0 != i as int {
                            assert(pre[j0].0 != pre[i as int].0);
                        }
                    }
                }
                job.creeps
            },
            None => Vec::new(),
        }
    }
}

} // verus!
