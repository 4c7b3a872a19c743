use orchestrator::grpc::{
    get_configuration, AgentRegistry, GetConfigurationRequest, HeartbeatRequest, RegisterAgentRequest,
};
use orchestrator::health::AgentStatus;
use orchestrator::http::{traffic_limit, welcome_response, TrafficQuery};

fn request(id: &str, port: u16) -> RegisterAgentRequest {
    RegisterAgentRequest {
        agent_id: id.to_string(),
        address: "127.0.0.1".to_string(),
        port,
        version: "1.0.0".to_string(),
        capabilities: vec!["http".to_string()],
    }
}

#[test]
fn test_register_agent_request() {
    let mut registry = AgentRegistry::new();

    let response = registry.register_agent(request("test-agent", 8080), 1_000);
    assert!(response.success);
    assert_eq!(response.agent_id, "test-agent");

    assert!(registry.contains("test-agent"));
}

#[test]
fn registering_again_replaces_the_entry() {
    let mut registry = AgentRegistry::new();
    registry.register_agent(request("a", 1), 10);
    registry.register_agent(request("b", 2), 11);
    let r = registry.register_agent(request("a", 3), 12);
    assert_eq!(r.message, "Agent registered successfully");
    assert_eq!(registry.agents.len(), 2);
    assert_eq!(registry.agents[0].port, 3);
    assert_eq!(registry.agents[0].last_heartbeat, 12);
    assert_eq!(registry.agents[0].status, AgentStatus::Online);
}

#[test]
fn heartbeats_need_a_registration() {
    let mut registry = AgentRegistry::new();
    assert_eq!(
        registry.heartbeat(&HeartbeatRequest { agent_id: "x".to_string() }, 5, 0).unwrap_err(),
        "Agent not registered"
    );
    registry.register_agent(request("x", 1), 1);
    registry.agents[0].status = AgentStatus::Offline;
    let h = registry.heartbeat(&HeartbeatRequest { agent_id: "x".to_string() }, 5_000, 5).unwrap();
    assert!(h.success);
    assert_eq!(h.timestamp, 5);
    assert_eq!(registry.agents[0].status, AgentStatus::Online);
    assert_eq!(registry.agents[0].last_heartbeat, 5_000);
}

#[test]
fn agent_configuration_is_fixed() {
    let c = get_configuration(&GetConfigurationRequest { agent_id: "any".to_string() });
    assert_eq!(c.config_json, "{\"proxy_rules\": [], \"log_level\": \"info\"}");
    assert_eq!(c.version, 1);
}

#[test]
fn welcome_page_lists_endpoints() {
    let w = welcome_response();
    assert_eq!(w.status, "running");
    assert_eq!(w.endpoints.len(), 10);
    assert_eq!(w.endpoints[4].method, "POST");
    assert_eq!(traffic_limit(&TrafficQuery { agent_id: None, limit: None }), 100);
    assert_eq!(traffic_limit(&TrafficQuery { agent_id: None, limit: Some(7) }), 7);
}
