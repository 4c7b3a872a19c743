use orchestrator::engine::{AgentInfo, AgentStatus, AttackError};
use orchestrator::performance::AgentConcurrency;

fn agent(id: &str, status: AgentStatus) -> AgentInfo {
    AgentInfo { id: id.to_string(), hostname: "host".to_string(), status, response_time_ms: Some(100) }
}

#[test]
fn test_agent_initialization() {
    let mut c = AgentConcurrency::new(50, 500);
    c.initialize_agents(&vec![agent("agent1", AgentStatus::Online), agent("agent2", AgentStatus::Offline)]);
    // Should only initialize online agents
    assert_eq!(c.control_count(), 1);
    assert!(c.has_control("agent1"));
    assert!(!c.has_control("agent2"));
}

#[test]
fn test_request_permit_acquisition() {
    let mut c = AgentConcurrency::new(2, 10);
    c.initialize_agents(&vec![agent("agent1", AgentStatus::Online)]);
    // Should be able to acquire permits up to the limit
    assert_eq!(c.acquire_request_permit("agent1"), Ok(true));
    assert_eq!(c.acquire_request_permit("agent1"), Ok(true));
    // The third waits for a running request to finish
    assert_eq!(c.acquire_request_permit("agent1"), Ok(false));
    c.complete_request("agent1");
    assert_eq!(c.acquire_request_permit("agent1"), Ok(true));
}

#[test]
fn unknown_agents_are_unavailable() {
    let mut c = AgentConcurrency::new(2, 10);
    assert_eq!(
        c.acquire_request_permit("ghost"),
        Err(AttackError::AgentUnavailable { agent_id: "ghost".to_string() })
    );
}

#[test]
fn global_limit_holds_back_every_agent() {
    let mut c = AgentConcurrency::new(5, 1);
    c.initialize_agents(&vec![agent("a", AgentStatus::Online), agent("b", AgentStatus::Online)]);
    assert_eq!(c.acquire_request_permit("a"), Ok(true));
    assert_eq!(c.acquire_request_permit("b"), Ok(false));
    assert_eq!(c.acquire_request_permit("nobody"), Ok(false));
    c.complete_request("a");
    assert_eq!(c.acquire_request_permit("b"), Ok(true));
}

#[test]
fn reinitializing_restarts_an_agents_control() {
    let mut c = AgentConcurrency::new(1, 10);
    c.initialize_agents(&vec![agent("a", AgentStatus::Online)]);
    assert_eq!(c.acquire_request_permit("a"), Ok(true));
    assert_eq!(c.acquire_request_permit("a"), Ok(false));
    c.initialize_agents(&vec![agent("a", AgentStatus::Online)]);
    assert_eq!(c.control_count(), 1);
    assert_eq!(c.acquire_request_permit("a"), Ok(true));
}
