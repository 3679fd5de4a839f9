//! The closed set of outcome codes a world action can report.

use vstd::prelude::*;

verus! {

/// Outcome of one world action primitive (move, harvest, withdraw, transfer,
/// build, upgrade). The world reports exactly one of these codes; any code a
/// given action is not expected to produce is treated as a fatal, unmodeled
/// condition by the executors.
#[derive(Debug, PartialEq, Eq, Structural, Clone, Copy, Hash)]
pub enum Outcome {
    /// The action succeeded.
    Success,
    /// The target is out of working range.
    NotInRange,
    /// Temporarily busy (for an agent: still being spawned).
    Busy,
    /// The agent is fatigued and cannot move this tick.
    Tired,
    /// The target is saturated (its store is full).
    Full,
    /// Not enough resource to act on (store empty, source drained).
    NotEnough,
    /// The agent lacks the body capability the action requires.
    NoBodypart,
    /// The target is not valid for this action.
    InvalidTarget,
    /// The object is not owned by this player.
    NotOwner,
    /// The object (or a memorized path) was not found.
    NotFound,
    /// No path to the target exists.
    NoPath,
}

} // verus!
