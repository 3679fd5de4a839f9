//! The target-acquisition heuristic and the per-agent scheduler.

use colony::acquire::{
    acquire_job, destination_candidate, origin_candidate, AgentState, RuinCand, SiteCand,
    SourceCand, StructCand, StructKind, WorldSnapshot,
};
use colony::jobs::TargetEnum;
use colony::outcome::Outcome;
use colony::progress::Progress;
use colony::executor::{after_move, execute_step, move_step, StepVerdict};
use colony::scheduler::{acquire_job_for, settle_step, Bindings, StatusMark};

fn empty_world() -> WorldSnapshot {
    WorldSnapshot {
        ruins: vec![],
        closest_source: None,
        structures: vec![],
        sites: vec![],
        energy_available: 300,
        energy_capacity: 300,
    }
}

fn spawn_at(id: u128, range: u32, free: i32) -> StructCand {
    StructCand { kind: StructKind::Spawn, id, range, free_energy: free }
}

fn extension_at(id: u128, range: u32, free: i32) -> StructCand {
    StructCand { kind: StructKind::Extension, id, range, free_energy: free }
}

fn controller_at(id: u128, range: u32) -> StructCand {
    StructCand { kind: StructKind::Controller, id, range, free_energy: 0 }
}

#[test]
fn full_agent_never_gets_an_origin() {
    // An agent with no free capacity is never sent collecting, whatever is
    // on offer.
    let mut w = empty_world();
    w.ruins = vec![RuinCand { id: 1, energy: 500, range: 1 }];
    w.closest_source = Some(SourceCand { id: 2, range: 1 });
    let agent = AgentState { used: 50, free: 0 };
    match acquire_job(&agent, &w) {
        Some(TargetEnum::Ruin(_)) | Some(TargetEnum::Source(_)) => {
            panic!("origin proposed for a full agent")
        },
        _ => {},
    }
    assert_eq!(origin_candidate(&agent, &w), None);
}

#[test]
fn empty_agent_never_gets_a_destination() {
    let mut w = empty_world();
    w.structures = vec![spawn_at(1, 1, 300)];
    w.sites = vec![SiteCand { id: 2, range: 1 }];
    let agent = AgentState { used: 0, free: 50 };
    assert_eq!(destination_candidate(&agent, &w), None);
    assert_eq!(acquire_job(&agent, &w), None);
}

#[test]
fn scenario_full_agent_delivers_to_the_sink() {
    // Full agent, nearest source at distance 5, eligible sink at distance 2:
    // the sink is chosen, and the deposit runs through `Doing` to `Done`.
    let mut w = empty_world();
    w.closest_source = Some(SourceCand { id: 10, range: 5 });
    w.structures = vec![spawn_at(20, 2, 300)];
    // Scarce, so the priority branch runs.
    w.energy_available = 100;
    w.energy_capacity = 300;
    let agent = AgentState { used: 50, free: 0 };
    let target = acquire_job(&agent, &w).expect("a target");
    assert_eq!(target, TargetEnum::Spawn(20));
    // Executing the deposit: out of range first, so the agent moves
    // (`Doing`), then the transfer itself completes the task.
    assert_eq!(execute_step(&target, Outcome::NotInRange, 1, 50, 0), StepVerdict::NeedMove);
    assert_eq!(
        after_move(move_step(Outcome::Success)),
        StepVerdict::Report(Progress::Doing)
    );
    assert_eq!(
        execute_step(&target, Outcome::Success, 1, 50, 0),
        StepVerdict::Report(Progress::Done)
    );
}

#[test]
fn origin_prefers_ruins_over_sources_then_distance() {
    let mut w = empty_world();
    w.ruins = vec![
        RuinCand { id: 1, energy: 0, range: 1 },
        RuinCand { id: 2, energy: 10, range: 7 },
        RuinCand { id: 3, energy: 10, range: 4 },
        RuinCand { id: 4, energy: 10, range: 4 },
    ];
    w.closest_source = Some(SourceCand { id: 5, range: 2 });
    let agent = AgentState { used: 0, free: 50 };
    // The empty ruin is skipped; the nearest ruin with resource wins even
    // though the source is closer, and the first of equal ranges is kept.
    assert_eq!(acquire_job(&agent, &w), Some(TargetEnum::Ruin(3)));
    w.ruins.clear();
    assert_eq!(acquire_job(&agent, &w), Some(TargetEnum::Source(5)));
    w.closest_source = None;
    assert_eq!(acquire_job(&agent, &w), None);
}

#[test]
fn scarce_destination_follows_priority_before_distance() {
    let mut w = empty_world();
    w.energy_available = 100;
    w.energy_capacity = 300;
    w.structures = vec![
        controller_at(1, 1),
        spawn_at(2, 2, 300),
        extension_at(3, 9, 10),
    ];
    let agent = AgentState { used: 50, free: 0 };
    // The far extension still beats the near spawn and controller.
    assert_eq!(acquire_job(&agent, &w), Some(TargetEnum::Extension(3)));
    // An extension with nothing free is not a sink.
    w.structures[2].free_energy = 0;
    assert_eq!(acquire_job(&agent, &w), Some(TargetEnum::Spawn(2)));
    // A spawn needs a useful delivery amount free.
    w.structures[1].free_energy = 49;
    assert_eq!(acquire_job(&agent, &w), Some(TargetEnum::Controller(1)));
}

#[test]
fn scarce_destination_falls_back_to_nearest_site() {
    let mut w = empty_world();
    w.energy_available = 100;
    w.energy_capacity = 300;
    w.sites = vec![
        SiteCand { id: 1, range: 6 },
        SiteCand { id: 2, range: 3 },
    ];
    let agent = AgentState { used: 50, free: 0 };
    assert_eq!(acquire_job(&agent, &w), Some(TargetEnum::ConstructionSite(2)));
}

#[test]
fn abundant_destination_takes_nearest_in_working_range() {
    let mut w = empty_world();
    w.energy_available = 300;
    w.energy_capacity = 300;
    w.structures = vec![
        controller_at(1, 3),
        spawn_at(2, 1, 300),
        extension_at(3, 2, 300),
        extension_at(4, 1, 49),
    ];
    let agent = AgentState { used: 50, free: 0 };
    // In abundance the nearest near-eligible structure wins regardless of
    // priority: the adjacent spawn beats the controller; the full extension
    // is outside touching range, and the adjacent one has less than a
    // useful delivery amount free, so neither competes.
    assert_eq!(acquire_job(&agent, &w), Some(TargetEnum::Spawn(2)));
    // With a useful amount free, the adjacent extension ties the spawn on
    // distance and wins on priority.
    w.structures[3].free_energy = 50;
    assert_eq!(acquire_job(&agent, &w), Some(TargetEnum::Extension(4)));
}

#[test]
fn abundant_destination_falls_back_to_nearest_anywhere() {
    let mut w = empty_world();
    w.energy_available = 300;
    w.energy_capacity = 300;
    w.structures = vec![spawn_at(1, 9, 300)];
    w.sites = vec![SiteCand { id: 2, range: 4 }];
    let agent = AgentState { used: 50, free: 0 };
    // Nothing in working range: nearest by distance among eligible
    // structures and sites.
    assert_eq!(acquire_job(&agent, &w), Some(TargetEnum::ConstructionSite(2)));
    w.structures[0].range = 3;
    assert_eq!(acquire_job(&agent, &w), Some(TargetEnum::Spawn(1)));
}

#[test]
fn final_choice_weighs_both_legs() {
    let mut w = empty_world();
    w.energy_available = 100;
    w.energy_capacity = 300;
    w.closest_source = Some(SourceCand { id: 1, range: 2 });
    w.structures = vec![spawn_at(2, 6, 300)];
    // used * (origin range - 1) vs free * (destination range - 1):
    // 10 * 1 = 10 < 40 * 5 = 200: keep collecting.
    let agent = AgentState { used: 10, free: 40 };
    assert_eq!(acquire_job(&agent, &w), Some(TargetEnum::Source(1)));
    // 40 * 1 = 40 >= 8 * 5 = 40: a tie goes to the delivery leg.
    let agent = AgentState { used: 40, free: 8 };
    assert_eq!(acquire_job(&agent, &w), Some(TargetEnum::Spawn(2)));
    // 45 * 1 = 45 >= 5 * 5 = 25: deliver.
    let agent = AgentState { used: 45, free: 5 };
    assert_eq!(acquire_job(&agent, &w), Some(TargetEnum::Spawn(2)));
}

#[test]
fn acquire_job_for_is_a_no_op_on_bound_agents() {
    // Running the heuristic twice only binds once: the second call sees the
    // binding and leaves everything untouched.
    let mut b = Bindings::new();
    let name = String::from("d1-home-1");
    let mut w = empty_world();
    w.closest_source = Some(SourceCand { id: 9, range: 3 });
    let agent = AgentState { used: 0, free: 50 };
    assert!(acquire_job_for(&mut b, &name, &agent, &w));
    assert_eq!(b.get(&name), Some(TargetEnum::Source(9)));
    // Even with a changed world, the bound agent keeps its task.
    w.closest_source = Some(SourceCand { id: 10, range: 1 });
    assert!(!acquire_job_for(&mut b, &name, &agent, &w));
    assert_eq!(b.get(&name), Some(TargetEnum::Source(9)));
    assert_eq!(b.entries.len(), 1);
}

#[test]
fn settle_clears_binding_on_done_and_errors() {
    let mut b = Bindings::new();
    let name = String::from("d1-home-2");
    let other = String::from("d3-home-3");
    let mut w = empty_world();
    w.closest_source = Some(SourceCand { id: 9, range: 3 });
    let agent = AgentState { used: 0, free: 50 };
    assert!(acquire_job_for(&mut b, &name, &agent, &w));
    assert!(acquire_job_for(&mut b, &other, &agent, &w));
    // Progress keeps the binding.
    let m = settle_step(&mut b, &name, &Ok(Progress::Doing), 0);
    assert_eq!(m, None);
    assert!(b.get(&name).is_some());
    // Done releases it, with a success mark.
    let m = settle_step(&mut b, &name, &Ok(Progress::Done), 0);
    assert_eq!(m, Some(StatusMark::Success));
    assert!(b.get(&name).is_none());
    assert!(b.get(&other).is_some());
}

#[test]
fn scenario_incapable_agent_is_removed_and_unbound() {
    // The "incapable" outcome code: the executor orders the agent's removal,
    // the step reports failure, and the binding is cleared.
    let mut b = Bindings::new();
    let name = String::from("d1-home-4");
    let mut w = empty_world();
    w.closest_source = Some(SourceCand { id: 9, range: 3 });
    assert!(acquire_job_for(&mut b, &name, &AgentState { used: 0, free: 50 }, &w));
    let target = b.get(&name).unwrap();
    assert_eq!(
        execute_step(&target, Outcome::NoBodypart, 1, 0, 50),
        StepVerdict::RemoveAgent
    );
    // The removal reports as a NoBodypart failure, which unbinds quietly.
    let m = settle_step(&mut b, &name, &Err(Outcome::NoBodypart), 0);
    assert_eq!(m, None);
    assert!(b.get(&name).is_none());
}

#[test]
fn bindings_survive_removing_the_unbound() {
    let mut b = Bindings::new();
    let name = String::from("d1-none");
    b.remove(&name);
    assert!(b.entries.is_empty());
    assert_eq!(b.get(&name), None);
}

#[test]
fn settle_marks_sleep_and_errors() {
    let mut b = Bindings::new();
    let name = String::from("d1-home-5");
    assert_eq!(
        settle_step(&mut b, &name, &Ok(Progress::Todo), 0),
        Some(StatusMark::Asleep)
    );
    assert_eq!(settle_step(&mut b, &name, &Ok(Progress::Todo), 2), None);
    assert_eq!(
        settle_step(&mut b, &name, &Ok(Progress::Frozen), 0),
        Some(StatusMark::Frozen)
    );
    assert_eq!(settle_step(&mut b, &name, &Err(Outcome::NoPath), 0), None);
    assert_eq!(
        settle_step(&mut b, &name, &Err(Outcome::NotOwner), 0),
        Some(StatusMark::Error)
    );
}
