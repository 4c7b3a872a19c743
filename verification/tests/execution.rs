use orchestrator::distribution::{DistributionStats, PayloadAssignment};
use orchestrator::engine::{AgentInfo, AgentStatus, AttackError, AttackMode};
use orchestrator::execution::{
    check_agents_for_start, initial_progress, new_execution_config, AttackExecutionConfig, AttackExecutionStatus,
    ExecutionRegistry,
};

fn config() -> AttackExecutionConfig {
    AttackExecutionConfig {
        attack_id: "test-attack".to_string(),
        request_template: "GET /test HTTP/1.1\r\n\r\n".to_string(),
        attack_mode: AttackMode::Sniper,
        distribution: DistributionStats {
            total_payloads: 2,
            total_agents: 1,
            assignments: vec![PayloadAssignment {
                agent_id: "agent1".to_string(),
                payloads: vec!["payload1".to_string(), "payload2".to_string()],
                start_index: 0,
                end_index: 1,
                priority: 5,
            }],
        },
        concurrent_requests_per_agent: 1,
        timeout_seconds: 30,
        retry_attempts: 3,
        result_highlighting_rules: Vec::new(),
    }
}

#[test]
fn test_attack_progress_tracking() {
    let mut registry = ExecutionRegistry::new();
    let config = config();
    let agents = vec![AgentInfo {
        id: "agent1".to_string(),
        hostname: "host1".to_string(),
        status: AgentStatus::Online,
        response_time_ms: Some(100),
    }];

    // Start attack
    assert!(check_agents_for_start(&agents).is_ok());
    let started = registry.insert_running(initial_progress(&config, 1_000));
    assert_eq!(started.status, AttackExecutionStatus::Running);

    // Check initial progress
    let progress = registry.get_attack_progress("test-attack");
    assert!(progress.is_some());
    let progress = progress.unwrap();
    assert_eq!(progress.attack_id, "test-attack");
    assert_eq!(progress.total_requests, 2);
    assert!(matches!(progress.status, AttackExecutionStatus::Running));

    // Stop attack
    let result = registry.stop_attack("test-attack", 2_000);
    assert!(result.is_some());
}

#[test]
fn no_online_agent_blocks_the_start() {
    let agents = vec![AgentInfo {
        id: "a".to_string(),
        hostname: "h".to_string(),
        status: AgentStatus::Offline,
        response_time_ms: None,
    }];
    assert_eq!(
        check_agents_for_start(&agents),
        Err(AttackError::AgentUnavailable { agent_id: "No online agents available".to_string() })
    );
}

#[test]
fn initial_progress_counts_assigned_payloads() {
    let p = initial_progress(&config(), 42);
    assert_eq!(p.status, AttackExecutionStatus::Starting);
    assert_eq!(p.total_requests, 2);
    assert_eq!(p.completed_requests, 0);
    assert_eq!(p.started_at, Some(42));
    assert_eq!(p.agent_statistics.len(), 1);
    assert_eq!(p.agent_statistics[0].agent_id, "agent1");
    assert_eq!(p.agent_statistics[0].assigned_requests, 2);
}

#[test]
fn pause_resume_and_completion() {
    let mut registry = ExecutionRegistry::new();
    registry.insert_running(initial_progress(&config(), 0));
    assert!(registry.pause_attack("test-attack").is_ok());
    assert_eq!(registry.get_attack_progress("test-attack").unwrap().status, AttackExecutionStatus::Paused);
    assert!(registry.resume_attack("test-attack").is_ok());
    assert_eq!(registry.get_attack_progress("test-attack").unwrap().status, AttackExecutionStatus::Running);
    assert_eq!(
        registry.pause_attack("nope"),
        Err(AttackError::InvalidAttackConfig { reason: "Attack nope not found".to_string() })
    );

    let p = registry.record_result("test-attack", 5).unwrap();
    assert_eq!(p.completed_requests, 1);
    assert_eq!(p.status, AttackExecutionStatus::Running);
    let p = registry.record_result("test-attack", 6).unwrap();
    assert_eq!(p.status, AttackExecutionStatus::Completed);
    assert_eq!(p.completed_at, Some(6));
    assert!(registry.record_result("nope", 7).is_none());

    assert_eq!(registry.get_active_attacks().len(), 1);
    let stopped = registry.stop_attack("test-attack", 9).unwrap();
    assert_eq!(stopped.status, AttackExecutionStatus::Cancelled);
    assert!(registry.get_active_attacks().is_empty());
}

#[test]
fn default_execution_settings() {
    let c = config();
    let d = new_execution_config(c.attack_id, c.request_template, c.attack_mode, c.distribution);
    assert_eq!(d.concurrent_requests_per_agent, 10);
    assert_eq!(d.timeout_seconds, 30);
    assert_eq!(d.retry_attempts, 3);
}
