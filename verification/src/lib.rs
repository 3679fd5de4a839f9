//! Tick-driven control for a population of worker agents in a shared world of
//! resource sources and sinks: a task-progress model, outcome classification
//! for each world action, a target-acquisition heuristic, a job registry with
//! a bid model, and a capacity-bounded weighted bipartite matching engine.
//!
//! The world itself (object resolution, spatial queries, action primitives) is
//! an external collaborator: callers query it, then hand this crate plain
//! values (capacities, distances, outcome codes) and carry out the actions it
//! decides on.

pub mod acquire;
pub mod creeps;
pub mod executor;
pub mod hiring;
pub mod jobs;
pub mod outcome;
pub mod progress;
pub mod scheduler;
pub mod spawning;
pub mod utils;

pub use progress::Progress;
