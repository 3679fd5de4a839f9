//! The per-agent scheduler: the agent-to-task binding registry and the
//! per-tick step that settles an execution result and re-acquires a target
//! for an unbound agent.

use vstd::prelude::*;
use crate::acquire::{acquire_job, acquire_spec, AgentState, WorldSnapshot};
use crate::creeps::CreepName;
use crate::jobs::TargetEnum;
use crate::outcome::Outcome;
use crate::progress::Progress;

verus! {

/// The agent-to-task binding map, owned by the tick driver and passed by
/// reference; bindings persist across ticks while world references do not.
pub struct Bindings {
    /// The bindings, one per bound agent.
    pub entries: Vec<(CreepName, TargetEnum)>,
}

impl Bindings {
    /// Each agent has at most one binding.
    pub open spec fn wf(self) -> bool {
        forall|i: int, j: int|
            0 <= i < j < self.entries@.len() ==> self.entries@[i].0@ != self.entries@[j].0@
    }

    /// Whether this agent is bound to a task.
    pub open spec fn has_binding(self, name: Seq<char>) -> bool {
        exists|i: int| 0 <= i < self.entries@.len() && self.entries@[i].0@ == name
    }

    /// The task this agent is bound to.
    pub open spec fn binding_of(self, name: Seq<char>) -> TargetEnum {
        let i = choose|i: int| 0 <= i < self.entries@.len() && self.entries@[i].0@ == name;
        self.entries@[i].1
    }

    /// Creates an empty binding map.
    pub fn new() -> (r: Bindings)
        ensures
            r.wf(),
            r.entries@.len() == 0,
    {
        Bindings { entries: Vec::new() }
    }

    /// Finds the index of this agent's binding, if any.
    pub fn find(&self, name: &CreepName) -> (r: Option<usize>)
        ensures
            match r {
                Some(i) => i < self.entries@.len() && self.entries@[i as int].0@ == name@,
                None => !self.has_binding(name@),
            },
    {
        let mut i: usize = 0;
        while i < self.entries.len()
            invariant
                i <= self.entries@.len(),
                forall|j: int| 0 <= j < i ==> self.entries@[j].0@ != name@,
            decreases self.entries@.len() - i,
        {
            if self.entries[i].0 == *name {
                return Some(i);
            }
            i = i + 1;
        }
        None
    }

    /// The task this agent is bound to, if any.
    pub fn get(&self, name: &CreepName) -> (r: Option<TargetEnum>)
        requires
            self.wf(),
        ensures
            match r {
                Some(t) => self.has_binding(name@) && t == self.binding_of(name@),
                None => !self.has_binding(name@),
            },
    {
        match self.find(name) {
            Some(i) => Some(self.entries[i].1),
            None => None,
        }
    }

    /// Binds an unbound agent to a task.
    pub fn insert(&mut self, name: CreepName, target: TargetEnum)
        requires
            old(self).wf(),
            !old(self).has_binding(name@),
        ensures
            final(self).wf(),
            final(self).entries@ == old(self).entries@.push((name, target)),
            final(self).has_binding(name@),
            final(self).binding_of(name@) == target,
    {
        let ghost n = name@;
        self.entries.push((name, target));
        proof {
            let m = self.entries@.len() - 1;
            assert(self.entries@[m].0@ == n);
            assert forall|i: int, j: int|
                0 <= i < j < self.entries@.len() implies self.entries@[i].0@
                != self.entries@[j].0@ by {
                if j < m {
                    assert(old(self).entries@[i].0@ != old(self).entries@[j].0@);
                } else {
                    assert(old(self).entries@[i] == self.entries@[i]);
                }
            }
        }
    }

    /// Clears this agent's binding, if it has one.
    pub fn remove(&mut self, name: &CreepName)
        requires
            old(self).wf(),
        ensures
            final(self).wf(),
            !final(self).has_binding(name@),
            old(self).has_binding(name@) ==> exists|i: int|
                0 <= i < old(self).entries@.len() && old(self).entries@[i].0@ == name@
                && final(self).entries@ == old(self).entries@.remove(i),
            !old(self).has_binding(name@) ==> final(self).entries@ == old(self).entries@,
    {
        match self.find(name) {
            Some(i) => {
                self.entries.remove(i);
                proof {
                    let pre = old(self).entries@;
                    let post = self.entries@;
                    assert(post == pre.remove(i as int));
                    assert forall|j: int, k: int|
                        0 <= j < k < post.len() implies post[j].0@ != post[k].0@ by {
                        let j0 = if j < i as int { j } else { j + 1 };
                        let k0 = if k < i as int { k } else { k + 1 };
                        assert(post[j] == pre[j0] && post[k] == pre[k0]);
                        assert(pre[j0].0@ != pre[k0].0@);
                    }
                    assert forall|j: int| 0 <= j < post.len() implies post[j].0@ != name@ by {
                        let j0 = if j < i as int { j } else { j + 1 };
                        assert(post[j] == pre[j0]);
                        if j0 != i as int {
                            assert(pre[j0].0@ != pre[i as int].0@);
                        }
                    }
                }
            },
            None => {},
        }
    }
}

/// The one-character status an agent may display after its step, purely for
/// observability.
#[derive(Debug, PartialEq, Eq, Structural, Clone, Copy)]
pub enum StatusMark {
    /// The task is frozen (or the agent has no task).
    Frozen,
    /// The agent is waiting for preconditions with no fatigue to excuse it.
    Asleep,
    /// The task completed.
    Success,
    /// The task failed with an unexpected but non-fatal code.
    Error,
}

/// Whether a step result releases the agent's binding: completion and every
/// failure do, anything in progress does not.
pub open spec fn releases_binding(r: Result<Progress, Outcome>) -> bool {
    match r {
        Ok(p) => p is Done,
        Err(_) => true,
    }
}

/// The status mark a step result displays.
pub open spec fn marker_spec(r: Result<Progress, Outcome>, fatigue: u32) -> Option<StatusMark> {
    match r {
        Ok(Progress::Frozen) => Some(StatusMark::Frozen),
        Ok(Progress::Todo) => if fatigue == 0 {
            Some(StatusMark::Asleep)
        } else {
            None
        },
        Ok(Progress::Done) => Some(StatusMark::Success),
        Ok(_) => None,
        Err(e) => match e {
            Outcome::NoPath => None,
            Outcome::Busy => None,
            Outcome::NotFound => None,
            Outcome::NotInRange => None,
            Outcome::Tired => None,
            Outcome::NoBodypart => None,
            _ => Some(StatusMark::Error),
        },
    }
}

/// Settles one agent's step result: on completion or on any error the
/// binding is cleared, otherwise it is kept; returns the status mark to
/// display.
pub fn settle_step(
    b: &mut Bindings,
    name: &CreepName,
    r: &Result<Progress, Outcome>,
    fatigue: u32,
) -> (m: Option<StatusMark>)
    requires
        old(b).wf(),
    ensures
        final(b).wf(),
        m == marker_spec(*r, fatigue),
        releases_binding(*r) ==> !final(b).has_binding(name@),
        !releases_binding(*r) ==> final(b).entries@ == old(b).entries@,
{
    let releases = match r {
        Ok(p) => matches!(p, Progress::Done),
        Err(_) => true,
    };
    if releases {
        b.remove(name);
    }
    match r {
        Ok(Progress::Frozen) => Some(StatusMark::Frozen),
        Ok(Progress::Todo) => if fatigue == 0 {
            Some(StatusMark::Asleep)
        } else {
            None
        },
        Ok(Progress::Done) => Some(StatusMark::Success),
        Ok(_) => None,
        Err(e) => match e {
            Outcome::NoPath => None,
            Outcome::Busy => None,
            Outcome::NotFound => None,
            Outcome::NotInRange => None,
            Outcome::Tired => None,
            Outcome::NoBodypart => None,
            _ => Some(StatusMark::Error),
        },
    }
}

/// Runs the acquisition heuristic for an agent, but only if it has no
/// binding: on an agent that already has one this is a no-op. Returns
/// whether a new binding was created.
pub fn acquire_job_for(
    b: &mut Bindings,
    name: &CreepName,
    agent: &AgentState,
    w: &WorldSnapshot,
) -> (acquired: bool)
    requires
        old(b).wf(),
    ensures
        final(b).wf(),
        old(b).has_binding(name@) ==> final(b).entries@ == old(b).entries@ && !acquired,
        !old(b).has_binding(name@) ==> match acquire_spec(*agent, *w) {
            Some(t) => acquired && final(b).entries@ == old(b).entries@.push(((*name), t)),
            None => !acquired && final(b).entries@ == old(b).entries@,
        },
{
    match b.find(name) {
        Some(_) => false,
        None => {
            match acquire_job(agent, w) {
                Some(t) => {
                    b.insert(name.clone(), t);
                    true
                },
                None => false,
            }
        },
    }
}

} // verus!
