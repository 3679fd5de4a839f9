//! The bipartite matching engine and the job registry.

use colony::hiring::{ANode, Bipartite, Edge, ExtendGraph, PNode};
use colony::jobs::{
    edge_weight, relocation_cost, supply_spawn_after_move, supply_spawn_execute, CreepJob,
    CreepJobError, ExecuteVerdict, JobKey, JobRegistry, JobTarget, SpawnView, SupplySpawnTarget,
};
use colony::executor::{move_step, StepVerdict};
use colony::outcome::Outcome;
use colony::progress::Progress;

fn graph_with(posts: usize, applicants: usize, capacity: usize) -> Bipartite<u128, u128, i64> {
    let mut g: Bipartite<u128, u128, i64> = Bipartite::new();
    let mut i: usize = 0;
    while i < posts {
        g.add_post(1000 + i as u128, capacity);
        i += 1;
    }
    let mut i: usize = 0;
    while i < applicants {
        g.add_applicant(2000 + i as u128);
        i += 1;
    }
    g
}

#[test]
fn nodes_start_fresh() {
    let a: ANode<u8> = ANode::new(7);
    assert_eq!(a.applicant, 7);
    assert!(a.neighbours.is_empty());
    assert!(a.current_post.is_none());
    assert!(a.open_to_work);
    let p: PNode<u8> = PNode::new(9, 3);
    assert_eq!(p.post, 9);
    assert_eq!(p.capacity, 3);
    assert!(p.current_applicants.is_empty());
    let e: Edge<i64> = Edge::new(1, 2, -5);
    assert_eq!((e.p_i, e.a_i, e.weight), (1, 2, -5));
}

#[test]
fn extend_returns_indices_in_input_order() {
    let mut g = graph_with(2, 2, 1);
    let ids = g.extend_edges(vec![(0, 0, 10), (1, 0, 20), (0, 1, 30)]);
    assert_eq!(ids, vec![0, 1, 2]);
    assert_eq!(g.edges.len(), 3);
    assert_eq!(g.edges[1].p_i, 1);
    assert_eq!(g.edges[1].a_i, 0);
    assert_eq!(g.edges[1].weight, 20);
    // Both endpoints learned of their edges, in order.
    assert_eq!(g.posts[0].neighbours, vec![0, 2]);
    assert_eq!(g.applicants[0].neighbours, vec![0, 1]);
    assert!(g.applicants[0].open_to_work);
    // Chained extension keeps numbering where it left off.
    let more = g.extend_edges(vec![(1, 1, 40)]);
    assert_eq!(more, vec![3]);
}

#[test]
fn extend_graph_trait_single_item() {
    let mut g = graph_with(1, 1, 1);
    let e = g.extend_one((0, 0, 5));
    assert_eq!(e, 0);
    let ids = ExtendGraph::extend(&mut g, vec![(0, 0, 6)]);
    assert_eq!(ids, vec![1]);
    g.extend_reserve(10);
    assert_eq!(g.edges.len(), 2);
}

#[test]
fn scenario_stronger_offer_wins_single_slot() {
    // Two applicants bid on one single-capacity post with offers 120 and
    // 80: after matching, the 120 applicant holds the slot and the 80
    // applicant remains open to work.
    let mut g = graph_with(1, 2, 1);
    g.extend_edges(vec![(0, 0, 120), (0, 1, 80)]);
    g.run_matching();
    assert_eq!(g.applicants[0].current_post, Some(0));
    assert!(!g.applicants[0].open_to_work);
    assert_eq!(g.applicants[1].current_post, None);
    assert!(g.applicants[1].open_to_work);
    assert_eq!(g.posts[0].current_applicants, vec![0]);
}

#[test]
fn matching_respects_capacity() {
    // Three applicants, one post with two slots: exactly two are taken.
    let mut g = graph_with(1, 3, 2);
    g.extend_edges(vec![(0, 0, 10), (0, 1, 30), (0, 2, 20)]);
    g.run_matching();
    assert_eq!(g.posts[0].current_applicants.len(), 2);
    // The weakest offer is the one left out.
    assert_eq!(g.applicants[0].current_post, None);
    assert!(g.applicants[1].current_post.is_some());
    assert!(g.applicants[2].current_post.is_some());
}

#[test]
fn zero_capacity_post_is_never_matched() {
    let mut g = graph_with(1, 1, 0);
    g.extend_edges(vec![(0, 0, 100)]);
    g.run_matching();
    assert_eq!(g.applicants[0].current_post, None);
    assert!(g.posts[0].current_applicants.is_empty());
}

#[test]
fn displacement_increases_total_weight() {
    let mut g = graph_with(2, 2, 1);
    g.extend_edges(vec![(0, 0, 90), (0, 1, 50), (1, 1, 10)]);
    g.run_matching();
    // Applicant 1 grabs post 0 first, applicant 0's 90 then displaces its
    // 50, and the evicted applicant is reconsidered and settles for post 1.
    assert_eq!(g.applicants[0].current_post, Some(0));
    assert_eq!(g.applicants[1].current_post, Some(2));
    let total: i64 = g
        .applicants
        .iter()
        .filter_map(|a| a.current_post)
        .map(|e| g.edges[e].weight)
        .sum();
    assert_eq!(total, 100);
}

#[test]
fn empty_graph_and_empty_batches() {
    let mut g: Bipartite<u8, u8, i64> = Bipartite::new();
    g.run_matching();
    assert!(g.posts.is_empty() && g.applicants.is_empty() && g.edges.is_empty());
    let mut g = graph_with(1, 1, 1);
    let ids = g.extend_edges(vec![]);
    assert!(ids.is_empty());
    assert!(g.edges.is_empty());
}

#[test]
fn compute_assignment_binds_by_offers() {
    // The single-capacity job takes the stronger of the two offers; the
    // binding pairs the agent's name with the job's key.
    let jobs = vec![(JobKey::RawObjectId(7), 1usize)];
    let agents = vec![String::from("strong"), String::from("weak")];
    let offers = vec![(0usize, 0usize, 120i64), (0, 1, 80)];
    let r = JobRegistry::compute_assignment(jobs, agents, offers);
    assert_eq!(r, vec![(String::from("strong"), JobKey::RawObjectId(7))]);
}

#[test]
fn supply_spawn_bid_model() {
    let view = SpawnView { free_energy: 300, store_capacity: 300, room_energy_capacity: 300 };
    assert_eq!(SupplySpawnTarget::store_size(Some(&view)), 300);
    // A quarter of the room's capacity, capped by the store.
    assert_eq!(SupplySpawnTarget::carry_size(Some(&view)), 75);
    assert_eq!(SupplySpawnTarget::capacity(Some(&view)), 4);
    // Free capacity split over 4 slots leaves 75 per slot; an agent
    // carrying 50 can deliver all of it: 100 credit per unit of throughput.
    assert_eq!(SupplySpawnTarget::offer(Some(&view), 50), 5000);
    // A heavily loaded agent is capped by the slot share.
    assert_eq!(SupplySpawnTarget::offer(Some(&view), 200), 7500);
}

#[test]
fn scenario_unresolvable_job_bids_nothing_and_is_purged() {
    // A job whose underlying object fails to resolve: its offer is zero,
    // the registry purges it on the next access, and no agent stays bound
    // to it.
    assert_eq!(SupplySpawnTarget::offer(None, 50), 0);
    assert_eq!(SupplySpawnTarget::store_size(None), 300);
    assert_eq!(SupplySpawnTarget::carry_size(None), 50);
    assert_eq!(SupplySpawnTarget::capacity(None), 6);

    let mut reg = JobRegistry::new();
    let key = JobKey::RawObjectId(77);
    let mut job = CreepJob::new(JobTarget::SupplySpawn(SupplySpawnTarget { spawn: 77 }));
    assert!(job.try_assign(String::from("d1-a"), 2).is_ok());
    assert!(job.try_assign(String::from("d1-b"), 2).is_ok());
    assert!(reg.add_job(key, job));
    assert!(reg.find(&key).is_some());
    // A resolvable access leaves the registry alone.
    let freed = reg.purge_if_unresolved(&key, true);
    assert!(freed.is_empty());
    assert!(reg.find(&key).is_some());
    // The failed resolution purges the job and frees its agents.
    let freed = reg.purge_if_unresolved(&key, false);
    assert_eq!(freed, vec![String::from("d1-a"), String::from("d1-b")]);
    assert!(reg.find(&key).is_none());
}

#[test]
fn job_assignment_respects_capacity() {
    let mut job = CreepJob::new(JobTarget::SupplySpawn(SupplySpawnTarget { spawn: 1 }));
    assert_eq!(job.try_assign(String::from("a"), 1), Ok(()));
    assert_eq!(job.try_assign(String::from("b"), 1), Err(CreepJobError::NotEnough));
    assert_eq!(job.creeps, vec![String::from("a")]);
}

#[test]
fn job_freeing_reports_presence() {
    let mut job = CreepJob::new(JobTarget::SupplySpawn(SupplySpawnTarget { spawn: 1 }));
    assert_eq!(job.try_free(&String::from("a")), Err(CreepJobError::NotHere));
    assert!(job.try_assign(String::from("a"), 3).is_ok());
    assert!(job.try_assign(String::from("b"), 3).is_ok());
    assert_eq!(job.try_free(&String::from("a")), Ok(()));
    assert_eq!(job.creeps, vec![String::from("b")]);
    // A duplicated name is cleaned up but reported as an inconsistency.
    assert!(job.try_assign(String::from("b"), 3).is_ok());
    match job.try_free(&String::from("b")) {
        Err(CreepJobError::Other(_)) => {},
        r => panic!("expected an inconsistency report, got {:?}", r),
    }
    assert!(job.creeps.is_empty());
}

#[test]
fn registry_rejects_duplicate_keys() {
    let mut reg = JobRegistry::new();
    let key = JobKey::RawObjectId(5);
    assert!(reg.add_job(key, CreepJob::new(JobTarget::SupplySpawn(SupplySpawnTarget { spawn: 5 }))));
    assert!(!reg.add_job(key, CreepJob::new(JobTarget::SupplySpawn(SupplySpawnTarget { spawn: 5 }))));
    assert_eq!(reg.entries.len(), 1);
}

#[test]
fn relocation_and_net_weight() {
    assert_eq!(relocation_cost(None, 300), 0);
    assert_eq!(relocation_cost(Some(7), 300), 2100);
    assert_eq!(edge_weight(5000, 2100), 2900);
    assert_eq!(edge_weight(100, 2100), -2000);
}

#[test]
fn supply_spawn_execution_classification() {
    assert_eq!(supply_spawn_execute(false, Outcome::Success), ExecuteVerdict::Finished);
    assert_eq!(supply_spawn_execute(true, Outcome::Success), ExecuteVerdict::Finished);
    assert_eq!(supply_spawn_execute(true, Outcome::Full), ExecuteVerdict::Finished);
    assert_eq!(supply_spawn_execute(true, Outcome::NotEnough), ExecuteVerdict::Finished);
    assert_eq!(supply_spawn_execute(true, Outcome::NotInRange), ExecuteVerdict::NeedMove);
    assert_eq!(
        supply_spawn_execute(true, Outcome::NoBodypart),
        ExecuteVerdict::RemoveAgentThenFinish
    );
    assert_eq!(
        supply_spawn_execute(true, Outcome::Busy),
        ExecuteVerdict::Fatal(Outcome::Busy)
    );
    // After the movement fallback: moving keeps the job alive, a movement
    // failure ends it for this agent.
    assert!(!supply_spawn_after_move(&move_step(Outcome::Success)));
    assert!(!supply_spawn_after_move(&StepVerdict::Report(Progress::Todo)));
    assert!(supply_spawn_after_move(&move_step(Outcome::NoPath)));
}
