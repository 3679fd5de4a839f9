//! Action executors: one per task kind, each classifying the outcome of one
//! world action into a uniform progress signal and a retry/abandon decision.
//!
//! The caller performs the world action, hands the outcome code to the
//! matching `*_step` function here, and then carries out what the returned
//! verdict says: report progress, clear the task, attempt a movement
//! fallback, remove the agent, or abort the tick.

use vstd::prelude::*;
use crate::jobs::TargetEnum;
use crate::outcome::Outcome;
use crate::progress::Progress;

verus! {

/// What the scheduler must do after classifying one action outcome.
#[derive(Debug, PartialEq, Eq, Structural, Clone, Copy)]
pub enum StepVerdict {
    /// Report this progress; the task stays bound unless it is `Done`.
    Report(Progress),
    /// The task failed with this code; its binding is cleared and the agent
    /// becomes eligible for re-acquisition.
    Fail(Outcome),
    /// The target is out of range: attempt a move toward it, then classify
    /// the move outcome with [`move_step`] and [`after_move`].
    NeedMove,
    /// Report `Doing` and also start a move toward the target.
    DoingMove,
    /// The agent is incapable of the action: remove it from the world, then
    /// treat the step as `Fail(NoBodypart)`.
    RemoveAgent,
    /// An outcome code outside this action's expected set: a design
    /// assumption was violated and the tick must abort loudly.
    Fatal(Outcome),
}

/// Classification of a movement attempt: moving counts as progress, lack of
/// a path is a hard failure, congestion and fatigue are benign retries, and
/// any other code is an invariant violation.
pub open spec fn move_step_spec(o: Outcome) -> StepVerdict {
    match o {
        Outcome::Success => StepVerdict::Report(Progress::Doing),
        Outcome::NoPath => StepVerdict::Fail(Outcome::NoPath),
        Outcome::NotFound => StepVerdict::Fail(Outcome::NotFound),
        Outcome::Tired => StepVerdict::Report(Progress::Todo),
        Outcome::Busy => StepVerdict::Report(Progress::Todo),
        _ => StepVerdict::Fatal(o),
    }
}

/// Classifies the outcome of a movement attempt.
pub fn move_step(o: Outcome) -> (r: StepVerdict)
    ensures
        r == move_step_spec(o),
{
    match o {
        Outcome::Success => StepVerdict::Report(Progress::Doing),
        Outcome::NoPath => StepVerdict::Fail(Outcome::NoPath),
        Outcome::NotFound => StepVerdict::Fail(Outcome::NotFound),
        Outcome::Tired => StepVerdict::Report(Progress::Todo),
        Outcome::Busy => StepVerdict::Report(Progress::Todo),
        _ => StepVerdict::Fatal(o),
    }
}

/// The adjustment every task executor applies to its movement fallback:
/// when no stored path was found the step is retried next tick; every
/// other verdict stands.
pub open spec fn after_move_spec(m: StepVerdict) -> StepVerdict {
    match m {
        StepVerdict::Fail(Outcome::NotFound) => StepVerdict::Report(Progress::Todo),
        _ => m,
    }
}

/// Softens the verdict of the movement fallback of a task executor.
pub fn after_move(m: StepVerdict) -> (r: StepVerdict)
    ensures
        r == after_move_spec(m),
{
    match m {
        StepVerdict::Fail(Outcome::NotFound) => StepVerdict::Report(Progress::Todo),
        _ => m,
    }
}

/// Classification of a harvest attempt. On success, one tick of work ahead
/// is projected: if the next harvest would overflow the agent's free
/// capacity, the task is already done.
pub open spec fn harvest_step_spec(o: Outcome, work_parts: u32, free: i32) -> StepVerdict {
    match o {
        Outcome::Success => if 2 * (work_parts as int) > free as int {
            StepVerdict::Report(Progress::Done)
        } else {
            StepVerdict::Report(Progress::Doing)
        },
        Outcome::NotInRange => StepVerdict::NeedMove,
        Outcome::Busy => StepVerdict::Report(Progress::Frozen),
        Outcome::NoBodypart => StepVerdict::RemoveAgent,
        Outcome::NotEnough => StepVerdict::Fail(Outcome::NotEnough),
        _ => StepVerdict::Fatal(o),
    }
}

/// Classifies one harvest attempt on a source.
///
/// `work_parts` is the agent's active work-part count and `free` its free
/// carry capacity for the harvested resource.
pub fn harvest_step(o: Outcome, work_parts: u32, free: i32) -> (r: StepVerdict)
    ensures
        r == harvest_step_spec(o, work_parts, free),
{
    match o {
        Outcome::Success => if 2 * (work_parts as i64) > free as i64 {
            StepVerdict::Report(Progress::Done)
        } else {
            StepVerdict::Report(Progress::Doing)
        },
        Outcome::NotInRange => StepVerdict::NeedMove,
        Outcome::Busy => StepVerdict::Report(Progress::Frozen),
        Outcome::NoBodypart => StepVerdict::RemoveAgent,
        Outcome::NotEnough => StepVerdict::Fail(Outcome::NotEnough),
        _ => StepVerdict::Fatal(o),
    }
}

/// Classification of a withdraw attempt on a ruin. An empty ruin or a full
/// agent means the task completed naturally; success projects one tick of
/// work ahead as for harvesting.
pub open spec fn withdraw_step_spec(o: Outcome, work_parts: u32, free: i32) -> StepVerdict {
    match o {
        Outcome::Success => if 2 * (work_parts as int) > free as int {
            StepVerdict::Report(Progress::Done)
        } else {
            StepVerdict::Report(Progress::Doing)
        },
        Outcome::NotInRange => StepVerdict::NeedMove,
        Outcome::Full => StepVerdict::Report(Progress::Done),
        Outcome::NotEnough => StepVerdict::Report(Progress::Done),
        Outcome::Busy => StepVerdict::Report(Progress::Frozen),
        Outcome::NoBodypart => StepVerdict::RemoveAgent,
        _ => StepVerdict::Fatal(o),
    }
}

/// Classifies one withdraw attempt on a ruin.
pub fn withdraw_step(o: Outcome, work_parts: u32, free: i32) -> (r: StepVerdict)
    ensures
        r == withdraw_step_spec(o, work_parts, free),
{
    match o {
        Outcome::Success => if 2 * (work_parts as i64) > free as i64 {
            StepVerdict::Report(Progress::Done)
        } else {
            StepVerdict::Report(Progress::Doing)
        },
        Outcome::NotInRange => StepVerdict::NeedMove,
        Outcome::Full => StepVerdict::Report(Progress::Done),
        Outcome::NotEnough => StepVerdict::Report(Progress::Done),
        Outcome::Busy => StepVerdict::Report(Progress::Frozen),
        Outcome::NoBodypart => StepVerdict::RemoveAgent,
        _ => StepVerdict::Fatal(o),
    }
}

/// Classification of a transfer into a spawn or an extension: one successful
/// transfer, a full target or an empty agent all complete the task.
pub open spec fn transfer_step_spec(o: Outcome) -> StepVerdict {
    match o {
        Outcome::Success => StepVerdict::Report(Progress::Done),
        Outcome::NotInRange => StepVerdict::NeedMove,
        Outcome::Full => StepVerdict::Report(Progress::Done),
        Outcome::NotEnough => StepVerdict::Report(Progress::Done),
        Outcome::NoBodypart => StepVerdict::RemoveAgent,
        _ => StepVerdict::Fatal(o),
    }
}

/// Classifies one transfer attempt into a spawn.
pub fn transfer_spawn_step(o: Outcome) -> (r: StepVerdict)
    ensures
        r == transfer_step_spec(o),
{
    match o {
        Outcome::Success => StepVerdict::Report(Progress::Done),
        Outcome::NotInRange => StepVerdict::NeedMove,
        Outcome::Full => StepVerdict::Report(Progress::Done),
        Outcome::NotEnough => StepVerdict::Report(Progress::Done),
        Outcome::NoBodypart => StepVerdict::RemoveAgent,
        _ => StepVerdict::Fatal(o),
    }
}

/// Classifies one transfer attempt into an extension.
pub fn transfer_extension_step(o: Outcome) -> (r: StepVerdict)
    ensures
        r == transfer_step_spec(o),
{
    match o {
        Outcome::Success => StepVerdict::Report(Progress::Done),
        Outcome::NotInRange => StepVerdict::NeedMove,
        Outcome::Full => StepVerdict::Report(Progress::Done),
        Outcome::NotEnough => StepVerdict::Report(Progress::Done),
        Outcome::NoBodypart => StepVerdict::RemoveAgent,
        _ => StepVerdict::Fatal(o),
    }
}

/// Classification of an upgrade attempt on a controller. On success the
/// agent keeps upgrading while moving closer, until its remaining cargo is
/// projected to run out within one more tick of work.
pub open spec fn upgrade_step_spec(o: Outcome, work_parts: u32, used: u32) -> StepVerdict {
    match o {
        Outcome::Success => if work_parts > used {
            StepVerdict::Report(Progress::Done)
        } else {
            StepVerdict::DoingMove
        },
        Outcome::NotInRange => StepVerdict::NeedMove,
        Outcome::NoBodypart => StepVerdict::RemoveAgent,
        Outcome::NotEnough => StepVerdict::Fail(Outcome::NotEnough),
        Outcome::Busy => StepVerdict::Report(Progress::Frozen),
        _ => StepVerdict::Fatal(o),
    }
}

/// Classifies one upgrade attempt on a controller.
///
/// `used` is the agent's carried amount of the spent resource.
pub fn upgrade_step(o: Outcome, work_parts: u32, used: u32) -> (r: StepVerdict)
    ensures
        r == upgrade_step_spec(o, work_parts, used),
{
    match o {
        Outcome::Success => if work_parts > used {
            StepVerdict::Report(Progress::Done)
        } else {
            StepVerdict::DoingMove
        },
        Outcome::NotInRange => StepVerdict::NeedMove,
        Outcome::NoBodypart => StepVerdict::RemoveAgent,
        Outcome::NotEnough => StepVerdict::Fail(Outcome::NotEnough),
        Outcome::Busy => StepVerdict::Report(Progress::Frozen),
        _ => StepVerdict::Fatal(o),
    }
}

/// Classification of a build attempt on a construction site. Running out of
/// resource completes the task; an invalid site (for instance blocked by an
/// agent standing on it) is a hard failure that clears the task.
pub open spec fn build_step_spec(o: Outcome, work_parts: u32, used: u32) -> StepVerdict {
    match o {
        Outcome::Success => if 5 * (work_parts as int) > used as int {
            StepVerdict::Report(Progress::Done)
        } else {
            StepVerdict::Report(Progress::Doing)
        },
        Outcome::NotInRange => StepVerdict::NeedMove,
        Outcome::NotEnough => StepVerdict::Report(Progress::Done),
        Outcome::NoBodypart => StepVerdict::RemoveAgent,
        Outcome::Busy => StepVerdict::Report(Progress::Frozen),
        Outcome::InvalidTarget => StepVerdict::Fail(Outcome::InvalidTarget),
        _ => StepVerdict::Fatal(o),
    }
}

/// Classifies one build attempt on a construction site.
pub fn build_step(o: Outcome, work_parts: u32, used: u32) -> (r: StepVerdict)
    ensures
        r == build_step_spec(o, work_parts, used),
{
    match o {
        Outcome::Success => if 5 * (work_parts as i64) > used as i64 {
            StepVerdict::Report(Progress::Done)
        } else {
            StepVerdict::Report(Progress::Doing)
        },
        Outcome::NotInRange => StepVerdict::NeedMove,
        Outcome::NotEnough => StepVerdict::Report(Progress::Done),
        Outcome::NoBodypart => StepVerdict::RemoveAgent,
        Outcome::Busy => StepVerdict::Report(Progress::Frozen),
        Outcome::InvalidTarget => StepVerdict::Fail(Outcome::InvalidTarget),
        _ => StepVerdict::Fatal(o),
    }
}

/// Classification for whichever task kind the bound target selects.
pub open spec fn execute_step_spec(
    target: TargetEnum,
    o: Outcome,
    work_parts: u32,
    used: u32,
    free: i32,
) -> StepVerdict {
    match target {
        TargetEnum::Source(_) => harvest_step_spec(o, work_parts, free),
        TargetEnum::Ruin(_) => withdraw_step_spec(o, work_parts, free),
        TargetEnum::Spawn(_) => transfer_step_spec(o),
        TargetEnum::Extension(_) => transfer_step_spec(o),
        TargetEnum::Controller(_) => upgrade_step_spec(o, work_parts, used),
        TargetEnum::ConstructionSite(_) => build_step_spec(o, work_parts, used),
    }
}

/// Dispatches the outcome of the bound target's action to the executor for
/// its task kind.
pub fn execute_step(
    target: &TargetEnum,
    o: Outcome,
    work_parts: u32,
    used: u32,
    free: i32,
) -> (r: StepVerdict)
    ensures
        r == execute_step_spec(*target, o, work_parts, used, free),
{
    match target {
        TargetEnum::Source(_) => harvest_step(o, work_parts, free),
        TargetEnum::Ruin(_) => withdraw_step(o, work_parts, free),
        TargetEnum::Spawn(_) => transfer_spawn_step(o),
        TargetEnum::Extension(_) => transfer_extension_step(o),
        TargetEnum::Controller(_) => upgrade_step(o, work_parts, used),
        TargetEnum::ConstructionSite(_) => build_step(o, work_parts, used),
    }
}

} // verus!
