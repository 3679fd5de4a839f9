//! The shared vocabulary for task state: a five-state progress lattice.

use vstd::prelude::*;
use vstd::std_specs::cmp::PartialOrdSpec;
use core::cmp::Ordering;

verus! {

/// Progress of one task, totally ordered as
/// `Frozen < Todo < Doing < Soon < Done`.
///
/// The order matters for composition rules over task sequences (a threshold
/// such as "at least `Soon`" triggers the follow-up), not for comparing
/// unrelated tasks.
#[derive(Debug, PartialEq, Eq, Structural, Clone, Copy, Hash, Default)]
pub enum Progress {
    /// The task is frozen and should not be run normally; only observed,
    /// never produced by ordinary execution transitions.
    Frozen,
    /// The task has not started: some precondition is unmet this tick, and
    /// the caller must retry next tick without treating this as a failure.
    #[default]
    Todo,
    /// The task is in progress.
    Doing,
    /// The task is nearing completion. In a task sequence the next task is
    /// tried immediately, but unlike `Done` this does not dequeue the task,
    /// and if the follow-up was not ready the step is rolled back.
    Soon,
    /// The task is done; the agent's binding to it is released.
    Done,
}

impl Progress {
    /// Position of the state in the total order.
    pub open spec fn rank_spec(self) -> int {
        match self {
            Progress::Frozen => 0,
            Progress::Todo => 1,
            Progress::Doing => 2,
            Progress::Soon => 3,
            Progress::Done => 4,
        }
    }

    /// Position of the state in the total order.
    pub fn rank(self) -> (r: u8)
        ensures
            r as int == self.rank_spec(),
    {
        match self {
            Progress::Frozen => 0,
            Progress::Todo => 1,
            Progress::Doing => 2,
            Progress::Soon => 3,
            Progress::Done => 4,
        }
    }
}

impl PartialOrd for Progress {
    fn partial_cmp(&self, other: &Self) -> (r: Option<Ordering>) {
        let a = self.rank();
        let b = other.rank();
        if a < b {
            Some(Ordering::Less)
        } else if a == b {
            Some(Ordering::Equal)
        } else {
            Some(Ordering::Greater)
        }
    }
}

impl vstd::std_specs::cmp::PartialOrdSpecImpl for Progress {
    open spec fn obeys_partial_cmp_spec() -> bool {
        true
    }

    open spec fn partial_cmp_spec(&self, other: &Self) -> Option<Ordering> {
        if self.rank_spec() < other.rank_spec() {
            Some(Ordering::Less)
        } else if self.rank_spec() == other.rank_spec() {
            Some(Ordering::Equal)
        } else {
            Some(Ordering::Greater)
        }
    }
}

/// `partial_cmp` is a total order on `Progress`: every pair compares, equal
/// states are identical, the comparison is antisymmetric and transitive, and
/// the chain `Frozen < Todo < Doing < Soon < Done` holds, so thresholds such
/// as "at least `Soon`" are meaningful.
pub proof fn lemma_progress_total_order()
    ensures
        forall|a: Progress, b: Progress| #[trigger] a.partial_cmp_spec(&b) is Some,
        forall|a: Progress, b: Progress|
            #[trigger] a.partial_cmp_spec(&b) == Some(Ordering::Equal) <==> a == b,
        forall|a: Progress, b: Progress|
            #[trigger] a.partial_cmp_spec(&b) == Some(Ordering::Less) <==> b.partial_cmp_spec(
                &a,
            ) == Some(Ordering::Greater),
        forall|a: Progress, b: Progress, c: Progress|
            #[trigger] a.partial_cmp_spec(&b) == Some(Ordering::Less) && #[trigger] b
                .partial_cmp_spec(&c) == Some(Ordering::Less) ==> a.partial_cmp_spec(&c) == Some(
                Ordering::Less,
            ),
        Progress::Frozen.partial_cmp_spec(&Progress::Todo) == Some(Ordering::Less),
        Progress::Todo.partial_cmp_spec(&Progress::Doing) == Some(Ordering::Less),
        Progress::Doing.partial_cmp_spec(&Progress::Soon) == Some(Ordering::Less),
        Progress::Soon.partial_cmp_spec(&Progress::Done) == Some(Ordering::Less),
{
    assert(forall|a: Progress, b: Progress|
        #[trigger] a.partial_cmp_spec(&b) == Some(Ordering::Equal) <==> a == b) by {
        assert forall|a: Progress, b: Progress|
            a.rank_spec() == b.rank_spec() implies a == b by {
            match a {
                Progress::Frozen => assert(b is Frozen),
                Progress::Todo => assert(b is Todo),
                Progress::Doing => assert(b is Doing),
                Progress::Soon => assert(b is Soon),
                Progress::Done => assert(b is Done),
            }
        }
    }
}

} // verus!
