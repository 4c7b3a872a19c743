use orchestrator::health::{
    check_agent_health, get_health_status, summarize_agents, AgentInfo, AgentStatus, ComponentStatus, HealthChecker,
    HealthStatus, SystemStatus,
};

const NOW: i64 = 1_700_000_000_000;
const HOUR_MS: i64 = 3_600_000;

fn agent(id: &str, port: u16, status: AgentStatus, last_heartbeat: i64) -> AgentInfo {
    AgentInfo {
        id: id.to_string(),
        address: "127.0.0.1".to_string(),
        port,
        status,
        last_heartbeat,
        version: "1.0.0".to_string(),
        capabilities: vec!["http".to_string()],
    }
}

#[test]
fn test_health_checker_creation() {
    let checker = HealthChecker::new(30, 300);
    assert!(!checker.is_running());
}

#[test]
fn test_health_status_calculation() {
    let agents = vec![
        agent("agent1", 8080, AgentStatus::Online, NOW),
        agent("agent2", 8081, AgentStatus::Offline, NOW - HOUR_MS),
    ];

    let health = get_health_status(&agents, NOW, 0, 0);

    assert_eq!(health.total_agents, 2);
    assert_eq!(health.online_agents, 1);
    assert_eq!(health.offline_agents, 1);
    assert_eq!(health.overall_status, SystemStatus::Degraded);
}

#[test]
fn test_agent_timeout_detection() {
    let mut agents = vec![agent("old-agent", 8080, AgentStatus::Online, NOW - 2 * HOUR_MS)];

    check_agent_health(&mut agents, NOW, 60_000);

    assert_eq!(agents[0].status, AgentStatus::Offline);
}

#[test]
fn responsive_offline_agent_comes_back() {
    let mut agents = vec![
        agent("a", 1, AgentStatus::Offline, NOW - 1_000),
        agent("b", 2, AgentStatus::Degraded, NOW - 1_000),
        agent("c", 3, AgentStatus::Degraded, NOW - HOUR_MS),
        agent("d", 4, AgentStatus::Unknown, NOW - HOUR_MS),
    ];
    check_agent_health(&mut agents, NOW, 60_000);
    let s: Vec<AgentStatus> = agents.iter().map(|a| a.status).collect();
    assert_eq!(s, vec![AgentStatus::Online, AgentStatus::Degraded, AgentStatus::Offline, AgentStatus::Unknown]);
    // a second check at the same time changes nothing
    check_agent_health(&mut agents, NOW, 60_000);
    let s2: Vec<AgentStatus> = agents.iter().map(|a| a.status).collect();
    assert_eq!(s, s2);
}

#[test]
fn overall_status_by_counts() {
    let (c, s) = summarize_agents(&vec![]);
    assert_eq!((c.total, s), (0, SystemStatus::Unknown));
    let (_, s) = summarize_agents(&vec![agent("a", 1, AgentStatus::Offline, NOW)]);
    assert_eq!(s, SystemStatus::Unhealthy);
    let (c, s) = summarize_agents(&vec![agent("a", 1, AgentStatus::Online, NOW), agent("b", 2, AgentStatus::Online, NOW)]);
    assert_eq!((c.online, s), (2, SystemStatus::Healthy));
    let (c, s) = summarize_agents(&vec![agent("a", 1, AgentStatus::Online, NOW), agent("b", 2, AgentStatus::Degraded, NOW)]);
    assert_eq!((c.degraded, s), (1, SystemStatus::Degraded));
}

#[test]
fn checker_cannot_start_twice() {
    let mut checker = HealthChecker::new(30, 300);
    assert_eq!(checker.start(), Ok(()));
    assert!(checker.is_running());
    assert_eq!(checker.start(), Err("Health checker is already running".to_string()));
    checker.stop();
    assert!(!checker.is_running());
}

#[test]
fn initial_report_knows_nothing() {
    let h = HealthStatus::unknown_at(NOW);
    assert_eq!(h.overall_status, SystemStatus::Unknown);
    assert_eq!(h.database_status, ComponentStatus::Unknown);
    assert_eq!(h.timestamp, NOW);
    assert_eq!(h.total_agents, 0);
}
