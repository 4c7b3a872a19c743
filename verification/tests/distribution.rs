use orchestrator::distribution::{
    distribute_batch, distribute_payloads, distribute_round_robin, estimate_completion_ms, merge_assignments,
    redistribute_on_failure, AgentTiming, FailureHistory, LoadShare, PayloadAssignment,
};
use orchestrator::engine::{AgentInfo, AgentStatus, AttackError, DistributionStrategy};

fn agent(id: &str, host: &str, rt: u64) -> AgentInfo {
    AgentInfo { id: id.to_string(), hostname: host.to_string(), status: AgentStatus::Online, response_time_ms: Some(rt) }
}

fn create_test_agents() -> Vec<AgentInfo> {
    vec![agent("agent1", "host1", 100), agent("agent2", "host2", 200), agent("agent3", "host3", 50)]
}

fn strings(v: &[&str]) -> Vec<String> {
    v.iter().map(|s| s.to_string()).collect()
}

#[test]
fn test_round_robin_distribution() {
    let agents = create_test_agents();
    let payloads = strings(&["p1", "p2", "p3", "p4"]);

    let result = distribute_payloads(payloads, &agents, &DistributionStrategy::RoundRobin, &[]).unwrap();

    assert_eq!(result.total_payloads, 4);
    assert_eq!(result.total_agents, 3);
    assert_eq!(result.assignments.len(), 3);

    let agent_ids: Vec<String> = result.assignments.iter().map(|a| a.agent_id.clone()).collect();
    assert!(agent_ids.contains(&"agent1".to_string()));
    assert!(agent_ids.contains(&"agent2".to_string()));
    assert!(agent_ids.contains(&"agent3".to_string()));
}

#[test]
fn test_batch_distribution() {
    let agents = create_test_agents();
    let payloads = strings(&["p1", "p2", "p3", "p4", "p5"]);

    let result =
        distribute_payloads(payloads, &agents, &DistributionStrategy::Batch { batch_size: 2 }, &[]).unwrap();

    assert_eq!(result.total_payloads, 5);

    // Should have 3 batches: [p1,p2], [p3,p4], [p5]
    let total_assigned: usize = result.assignments.iter().map(|a| a.payloads.len()).sum();
    assert_eq!(total_assigned, 5);
}

#[test]
fn test_failure_redistribution() {
    let agents = create_test_agents();
    let payloads = strings(&["p1", "p2", "p3", "p4"]);

    let original = distribute_payloads(payloads, &agents, &DistributionStrategy::RoundRobin, &[]).unwrap();

    // Shares for the agents that remain once agent1 has failed.
    let shares = vec![
        LoadShare { agent_id: "agent2".to_string(), payload_count: 1, priority: 5 },
        LoadShare { agent_id: "agent3".to_string(), payload_count: 1, priority: 5 },
    ];
    let redistributed = redistribute_on_failure("agent1", &original, &agents, &shares).unwrap();

    assert_eq!(redistributed.total_agents, 2);

    let has_agent1 = redistributed.assignments.iter().any(|a| a.agent_id == "agent1");
    assert!(!has_agent1);

    let total_redistributed: usize = redistributed.assignments.iter().map(|a| a.payloads.len()).sum();
    assert_eq!(total_redistributed, 4);
}

#[test]
fn round_robin_deals_payloads_in_turn() {
    let agents = create_test_agents();
    let payloads = strings(&["p1", "p2", "p3", "p4"]);
    let r = distribute_round_robin(&payloads, &agents);
    assert_eq!(r.len(), 3);
    assert_eq!(r[0].agent_id, "agent1");
    assert_eq!(r[0].payloads, strings(&["p1", "p4"]));
    assert_eq!((r[0].start_index, r[0].end_index), (0, 3));
    assert_eq!(r[1].payloads, strings(&["p2"]));
    assert_eq!(r[2].payloads, strings(&["p3"]));
    assert_eq!(r[2].priority, 5);
}

#[test]
fn batches_cycle_over_agents() {
    let agents = create_test_agents();
    let payloads = strings(&["p1", "p2", "p3", "p4", "p5"]);
    let r = distribute_batch(&payloads, &agents, 2);
    assert_eq!(r.len(), 3);
    assert_eq!(r[0].payloads, strings(&["p1", "p2"]));
    assert_eq!(r[1].payloads, strings(&["p3", "p4"]));
    assert_eq!(r[2].payloads, strings(&["p5"]));
    assert_eq!(r[2].agent_id, "agent3");
    assert_eq!((r[2].start_index, r[2].end_index), (4, 4));
}

#[test]
fn load_balanced_follows_shares() {
    let agents = create_test_agents();
    let payloads = strings(&["p1", "p2", "p3", "p4", "p5"]);
    let shares = vec![
        LoadShare { agent_id: "agent1".to_string(), payload_count: 3, priority: 7 },
        LoadShare { agent_id: "agent2".to_string(), payload_count: 1, priority: 3 },
    ];
    let r = distribute_payloads(payloads, &agents, &DistributionStrategy::LoadBalanced, &shares).unwrap();
    assert_eq!(r.assignments.len(), 2);
    // the payload left over goes to the first assignment
    assert_eq!(r.assignments[0].payloads, strings(&["p1", "p2", "p3", "p5"]));
    assert_eq!(r.assignments[0].end_index, 4);
    assert_eq!(r.assignments[0].priority, 7);
    assert_eq!(r.assignments[1].payloads, strings(&["p4"]));
}

#[test]
fn empty_payloads_and_offline_agents_are_refused() {
    let agents = create_test_agents();
    match distribute_payloads(Vec::new(), &agents, &DistributionStrategy::RoundRobin, &[]) {
        Err(AttackError::InvalidPayloadConfig { .. }) => {}
        other => panic!("unexpected {:?}", other),
    }
    let mut offline = create_test_agents();
    for a in offline.iter_mut() {
        a.status = AgentStatus::Offline;
    }
    match distribute_payloads(strings(&["p"]), &offline, &DistributionStrategy::RoundRobin, &[]) {
        Err(AttackError::AgentUnavailable { .. }) => {}
        other => panic!("unexpected {:?}", other),
    }
}

#[test]
fn redistribution_without_survivors_is_refused() {
    let agents = vec![agent("agent1", "h", 10)];
    let original = distribute_payloads(strings(&["p1"]), &agents, &DistributionStrategy::RoundRobin, &[]).unwrap();
    match redistribute_on_failure("agent1", &original, &agents, &[]) {
        Err(AttackError::AgentUnavailable { agent_id }) => {
            assert_eq!(agent_id, "No remaining agents available for redistribution")
        }
        other => panic!("unexpected {:?}", other),
    }
    // an agent without an assignment changes nothing
    let same = redistribute_on_failure("nobody", &original, &agents, &[]).unwrap();
    assert_eq!(same.assignments.len(), 1);
    assert_eq!(same.assignments[0].payloads, strings(&["p1"]));
}

#[test]
fn merging_adds_to_existing_agents() {
    let kept = vec![PayloadAssignment {
        agent_id: "a".to_string(),
        payloads: strings(&["x"]),
        start_index: 0,
        end_index: 0,
        priority: 5,
    }];
    let extra = vec![
        PayloadAssignment { agent_id: "a".to_string(), payloads: strings(&["y"]), start_index: 1, end_index: 1, priority: 5 },
        PayloadAssignment { agent_id: "b".to_string(), payloads: strings(&["z"]), start_index: 2, end_index: 2, priority: 5 },
    ];
    let m = merge_assignments(kept, extra);
    assert_eq!(m.len(), 2);
    assert_eq!(m[0].payloads, strings(&["x", "y"]));
    assert_eq!(m[1].agent_id, "b");
}

#[test]
fn completion_estimate_uses_slowest_agent() {
    let agents = create_test_agents();
    let payloads = strings(&["p1", "p2", "p3", "p4"]);
    let r = distribute_round_robin(&payloads, &agents);
    let timings = vec![
        AgentTiming { agent_id: "agent1".to_string(), response_time_ms: 100, max_concurrent: 1 },
        AgentTiming { agent_id: "agent2".to_string(), response_time_ms: 300, max_concurrent: 1 },
    ];
    // agent1: 2 rounds x 100; agent2: 1 x 300; agent3: no timing, uses its own 50 ms
    let e = estimate_completion_ms(&r, &agents, &timings);
    assert_eq!(e, Some(300));
}

#[test]
fn failures_older_than_an_hour_are_forgotten() {
    let mut h = FailureHistory::new();
    h.record_agent_failure("a", 0);
    h.record_agent_failure("a", 1_000);
    h.record_agent_failure("b", 2_000);
    assert_eq!(h.recent_failures("a"), 2);
    assert_eq!(h.recent_failures("b"), 1);
    // at exactly one hour after the first failure, that failure no longer counts
    h.record_agent_failure("a", 3_600_000);
    assert_eq!(h.recent_failures("a"), 2);
    assert_eq!(h.recent_failures("b"), 1);
    assert_eq!(h.recent_failures("c"), 0);
}
