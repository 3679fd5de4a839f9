//! The progress order, the census, body costs, the spawn decision, and the
//! action-outcome classification tables.

use colony::creeps::{body_cost, census, role_of, CensusCounts, Part, Role};
use colony::executor::{
    after_move, build_step, execute_step, harvest_step, move_step, transfer_extension_step,
    transfer_spawn_step, upgrade_step, withdraw_step, StepVerdict,
};
use colony::jobs::TargetEnum;
use colony::outcome::Outcome;
use colony::progress::Progress;
use colony::spawning::{body_of, spawn_decision, BodyChoice};
use colony::utils::UnOrd;

#[test]
fn progress_chain_is_strictly_increasing() {
    assert!(Progress::Frozen < Progress::Todo);
    assert!(Progress::Todo < Progress::Doing);
    assert!(Progress::Doing < Progress::Soon);
    assert!(Progress::Soon < Progress::Done);
    assert!(Progress::Frozen < Progress::Done);
}

#[test]
fn progress_threshold_comparisons() {
    assert!(Progress::Done >= Progress::Soon);
    assert!(Progress::Soon >= Progress::Soon);
    assert!(!(Progress::Doing >= Progress::Soon));
    assert_eq!(Progress::default(), Progress::Todo);
}

#[test]
fn progress_rank_positions() {
    assert_eq!(Progress::Frozen.rank(), 0);
    assert_eq!(Progress::Todo.rank(), 1);
    assert_eq!(Progress::Doing.rank(), 2);
    assert_eq!(Progress::Soon.rank(), 3);
    assert_eq!(Progress::Done.rank(), 4);
}

#[test]
fn census_counts_roles_and_errors() {
    let names = vec![
        String::from("d1-home-100"),
        String::from("worker"),
        String::from("d3-home-200"),
        String::new(),
        String::from("Queen"),
    ];
    let c = census(&names);
    assert_eq!(
        c,
        CensusCounts {
            drone: 2,
            unknown: 2,
            nameless: 1,
        }
    );
}

#[test]
fn census_of_nobody() {
    let c = census(&vec![]);
    assert_eq!(c, CensusCounts { drone: 0, unknown: 0, nameless: 0 });
}

#[test]
fn role_letters() {
    assert_eq!(role_of('d'), Role::Drone);
    assert_eq!(role_of('H'), Role::Drone);
    assert_eq!(role_of('x'), Role::Unknown);
}

#[test]
fn body_costs_of_the_two_loadouts() {
    let small = body_of(BodyChoice::Small);
    assert_eq!(small, vec![Part::Work, Part::Carry, Part::Move]);
    assert_eq!(body_cost(&small), 200);
    let large = body_of(BodyChoice::Large);
    assert_eq!(large.len(), 6);
    assert_eq!(body_cost(&large), 400);
    assert_eq!(body_cost(&vec![]), 0);
    assert_eq!(body_cost(&vec![Part::Claim, Part::Heal, Part::Tough]), 860);
}

#[test]
fn spawn_decision_cases() {
    // Fleet full: nobody is spawned.
    assert_eq!(spawn_decision(8, 8, 1000, 1000), None);
    // Room too small for the large body: small, if affordable.
    assert_eq!(spawn_decision(0, 8, 250, 300), Some(BodyChoice::Small));
    assert_eq!(spawn_decision(0, 8, 150, 300), None);
    // Small fleet and the large cost not at hand right now: small.
    assert_eq!(spawn_decision(2, 8, 300, 550), Some(BodyChoice::Small));
    // Small fleet but the large cost is at hand: large.
    assert_eq!(spawn_decision(2, 8, 400, 550), Some(BodyChoice::Large));
    // Fleet no longer small: hold out for the large body.
    assert_eq!(spawn_decision(3, 8, 300, 550), None);
    assert_eq!(spawn_decision(3, 8, 420, 550), Some(BodyChoice::Large));
}

#[test]
fn move_step_classification() {
    assert_eq!(move_step(Outcome::Success), StepVerdict::Report(Progress::Doing));
    assert_eq!(move_step(Outcome::NoPath), StepVerdict::Fail(Outcome::NoPath));
    assert_eq!(move_step(Outcome::NotFound), StepVerdict::Fail(Outcome::NotFound));
    assert_eq!(move_step(Outcome::Tired), StepVerdict::Report(Progress::Todo));
    assert_eq!(move_step(Outcome::Busy), StepVerdict::Report(Progress::Todo));
    assert_eq!(move_step(Outcome::NotOwner), StepVerdict::Fatal(Outcome::NotOwner));
    assert_eq!(move_step(Outcome::InvalidTarget), StepVerdict::Fatal(Outcome::InvalidTarget));
}

#[test]
fn after_move_softens_missing_path_memory() {
    assert_eq!(
        after_move(StepVerdict::Fail(Outcome::NotFound)),
        StepVerdict::Report(Progress::Todo)
    );
    assert_eq!(
        after_move(StepVerdict::Fail(Outcome::NoPath)),
        StepVerdict::Fail(Outcome::NoPath)
    );
    assert_eq!(
        after_move(StepVerdict::Report(Progress::Doing)),
        StepVerdict::Report(Progress::Doing)
    );
}

#[test]
fn harvest_projects_one_tick_ahead() {
    // 2 work parts harvest 4 per tick; free capacity 3 would overflow.
    assert_eq!(harvest_step(Outcome::Success, 2, 3), StepVerdict::Report(Progress::Done));
    assert_eq!(harvest_step(Outcome::Success, 2, 4), StepVerdict::Report(Progress::Doing));
    assert_eq!(harvest_step(Outcome::NotInRange, 2, 10), StepVerdict::NeedMove);
    assert_eq!(harvest_step(Outcome::Busy, 2, 10), StepVerdict::Report(Progress::Frozen));
    assert_eq!(harvest_step(Outcome::NoBodypart, 2, 10), StepVerdict::RemoveAgent);
    assert_eq!(harvest_step(Outcome::NotEnough, 2, 10), StepVerdict::Fail(Outcome::NotEnough));
    assert_eq!(harvest_step(Outcome::Full, 2, 10), StepVerdict::Fatal(Outcome::Full));
}

#[test]
fn withdraw_completes_on_saturation() {
    assert_eq!(withdraw_step(Outcome::Full, 1, 10), StepVerdict::Report(Progress::Done));
    assert_eq!(withdraw_step(Outcome::NotEnough, 1, 10), StepVerdict::Report(Progress::Done));
    assert_eq!(withdraw_step(Outcome::Success, 1, 1), StepVerdict::Report(Progress::Done));
    assert_eq!(withdraw_step(Outcome::Success, 1, 2), StepVerdict::Report(Progress::Doing));
    assert_eq!(withdraw_step(Outcome::NoBodypart, 1, 2), StepVerdict::RemoveAgent);
    assert_eq!(withdraw_step(Outcome::NotOwner, 1, 2), StepVerdict::Fatal(Outcome::NotOwner));
}

#[test]
fn transfer_is_one_shot() {
    assert_eq!(transfer_spawn_step(Outcome::Success), StepVerdict::Report(Progress::Done));
    assert_eq!(transfer_spawn_step(Outcome::Full), StepVerdict::Report(Progress::Done));
    assert_eq!(transfer_spawn_step(Outcome::NotEnough), StepVerdict::Report(Progress::Done));
    assert_eq!(transfer_spawn_step(Outcome::NotInRange), StepVerdict::NeedMove);
    assert_eq!(transfer_spawn_step(Outcome::NoBodypart), StepVerdict::RemoveAgent);
    // A busy agent is unexpected here, unlike for harvesting.
    assert_eq!(transfer_spawn_step(Outcome::Busy), StepVerdict::Fatal(Outcome::Busy));
    assert_eq!(transfer_extension_step(Outcome::Success), StepVerdict::Report(Progress::Done));
    assert_eq!(transfer_extension_step(Outcome::NotInRange), StepVerdict::NeedMove);
}

#[test]
fn upgrade_keeps_closing_in() {
    assert_eq!(upgrade_step(Outcome::Success, 2, 1), StepVerdict::Report(Progress::Done));
    assert_eq!(upgrade_step(Outcome::Success, 2, 2), StepVerdict::DoingMove);
    assert_eq!(upgrade_step(Outcome::NotInRange, 2, 9), StepVerdict::NeedMove);
    assert_eq!(upgrade_step(Outcome::NotEnough, 2, 9), StepVerdict::Fail(Outcome::NotEnough));
    assert_eq!(upgrade_step(Outcome::Busy, 2, 9), StepVerdict::Report(Progress::Frozen));
    assert_eq!(upgrade_step(Outcome::NoBodypart, 2, 9), StepVerdict::RemoveAgent);
}

#[test]
fn build_classification() {
    assert_eq!(build_step(Outcome::Success, 1, 4), StepVerdict::Report(Progress::Done));
    assert_eq!(build_step(Outcome::Success, 1, 5), StepVerdict::Report(Progress::Doing));
    assert_eq!(build_step(Outcome::NotEnough, 1, 9), StepVerdict::Report(Progress::Done));
    assert_eq!(
        build_step(Outcome::InvalidTarget, 1, 9),
        StepVerdict::Fail(Outcome::InvalidTarget)
    );
    assert_eq!(build_step(Outcome::NoBodypart, 1, 9), StepVerdict::RemoveAgent);
    assert_eq!(build_step(Outcome::NotOwner, 1, 9), StepVerdict::Fatal(Outcome::NotOwner));
}

#[test]
fn execute_step_dispatches_by_target_kind() {
    assert_eq!(
        execute_step(&TargetEnum::Source(7), Outcome::NotEnough, 1, 0, 50),
        StepVerdict::Fail(Outcome::NotEnough)
    );
    assert_eq!(
        execute_step(&TargetEnum::Ruin(7), Outcome::NotEnough, 1, 0, 50),
        StepVerdict::Report(Progress::Done)
    );
    assert_eq!(
        execute_step(&TargetEnum::Spawn(7), Outcome::Success, 1, 0, 50),
        StepVerdict::Report(Progress::Done)
    );
    assert_eq!(
        execute_step(&TargetEnum::Extension(7), Outcome::Full, 1, 0, 50),
        StepVerdict::Report(Progress::Done)
    );
    assert_eq!(
        execute_step(&TargetEnum::Controller(7), Outcome::Success, 3, 9, 0),
        StepVerdict::DoingMove
    );
    assert_eq!(
        execute_step(&TargetEnum::ConstructionSite(7), Outcome::Success, 1, 9, 0),
        StepVerdict::Report(Progress::Doing)
    );
}

#[test]
fn unord_compares_equal_always() {
    let a: UnOrd<u32> = UnOrd::from(1);
    let b: UnOrd<u32> = UnOrd(2);
    assert!(a == b);
    assert_eq!(a.partial_cmp(&b), Some(std::cmp::Ordering::Equal));
    assert_eq!(a.0, 1);
    assert_eq!(b.0, 2);
}
