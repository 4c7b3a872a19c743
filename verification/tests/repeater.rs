use orchestrator::engine::{AttackError, HttpHeaders, HttpRequestData};
use orchestrator::repeater::{
    classify_agent_health, find_alternative_agent, get_agent_health, get_error_details, get_execution_statistics,
    parse_rfc3339_millis, validate_agent_availability, validate_agent_availability_internal, validate_request_template, whole_seconds_between,
    AgentSelectionInfo, ExecutionRecord, HealthStatus, RegisteredAgent,
};

fn create_test_request() -> HttpRequestData {
    HttpRequestData {
        url: "https://example.com/api/test".to_string(),
        method: "GET".to_string(),
        headers: Some(HttpHeaders { headers: Vec::new() }),
        body: Vec::new(),
    }
}

#[test]
fn test_validate_request_template() {
    let valid_request = create_test_request();
    assert!(validate_request_template(&valid_request).is_ok());

    let mut invalid_request = create_test_request();
    invalid_request.url = "".to_string();
    assert!(validate_request_template(&invalid_request).is_err());

    invalid_request.url = "example.com".to_string();
    assert!(validate_request_template(&invalid_request).is_err());

    invalid_request.url = "https://example.com".to_string();
    invalid_request.method = "INVALID".to_string();
    assert!(validate_request_template(&invalid_request).is_err());
}

#[test]
fn request_template_errors_name_the_problem() {
    let mut r = create_test_request();
    r.url = "ftp://x".to_string();
    assert_eq!(
        validate_request_template(&r),
        Err(AttackError::InvalidPayloadConfig { reason: "Request URL must start with http:// or https://".to_string() })
    );
    r.url = "http://x".to_string();
    r.method = "get".to_string();
    assert_eq!(
        validate_request_template(&r),
        Err(AttackError::InvalidPayloadConfig { reason: "Invalid HTTP method: get".to_string() })
    );
}

#[test]
fn rfc3339_times_parse_to_milliseconds() {
    assert_eq!(parse_rfc3339_millis("1970-01-01T00:00:01.500Z"), Some(1500));
    assert_eq!(parse_rfc3339_millis("2024-01-01T01:00:00+01:00"), Some(1_704_067_200_000));
    assert_eq!(parse_rfc3339_millis("yesterday"), None);
}

#[test]
fn seconds_round_toward_zero() {
    assert_eq!(whole_seconds_between(0, 1999), 1);
    assert_eq!(whole_seconds_between(1999, 0), -1);
    assert_eq!(whole_seconds_between(i64::MIN, i64::MAX), 18_446_744_073_709_551);
}

#[test]
fn health_depends_on_heartbeat_age() {
    assert_eq!(classify_agent_health("Online", 60), HealthStatus::Healthy);
    assert_eq!(classify_agent_health("Online", 61), HealthStatus::Degraded);
    assert_eq!(classify_agent_health("Online", 301), HealthStatus::Unhealthy);
    assert_eq!(classify_agent_health("Offline", 0), HealthStatus::Unhealthy);
}

fn registered(id: &str, status: &str, hb: &str) -> RegisteredAgent {
    RegisteredAgent {
        id: id.to_string(),
        address: "10.0.0.1".to_string(),
        port: 9000,
        status: status.to_string(),
        last_heartbeat: hb.to_string(),
        capabilities: vec!["http".to_string()],
    }
}

#[test]
fn availability_checks_status_and_heartbeat() {
    let now = 1_704_067_200_000; // 2024-01-01T00:00:00Z
    let agents = vec![
        registered("fresh", "Online", "2023-12-31T23:59:30Z"),
        registered("stale", "Online", "2023-12-31T23:50:00Z"),
        registered("down", "Offline", "2024-01-01T00:00:00Z"),
        registered("odd", "Online", "not a time"),
    ];
    assert_eq!(validate_agent_availability(&agents, "fresh"), Ok(()));
    assert_eq!(validate_agent_availability(&agents, "stale"), Ok(()));
    assert_eq!(
        validate_agent_availability(&agents, "down"),
        Err(AttackError::AgentUnavailable { agent_id: "down".to_string() })
    );
    assert!(validate_agent_availability(&agents, "missing").is_err());
    assert_eq!(validate_agent_availability(&agents, "odd"), Ok(()));

    assert_eq!(validate_agent_availability_internal(&agents, "fresh", now), Ok(()));
    assert_eq!(
        validate_agent_availability_internal(&agents, "stale", now),
        Err(AttackError::AgentUnavailable { agent_id: "stale".to_string() })
    );
    assert!(validate_agent_availability_internal(&agents, "down", now).is_err());
    assert!(validate_agent_availability_internal(&agents, "missing", now).is_err());
    assert_eq!(validate_agent_availability_internal(&agents, "odd", now), Ok(()));

    let h = get_agent_health(&agents, "stale", now).unwrap();
    assert_eq!(h.heartbeat_age_seconds, 600);
    assert_eq!(h.status, HealthStatus::Unhealthy);
    assert_eq!(h.address, "10.0.0.1:9000");
    assert!(get_agent_health(&agents, "missing", now).is_none());
}

#[test]
fn alternative_agent_is_the_fastest_available() {
    let a = |id: &str, avail: bool, rt: Option<u64>| AgentSelectionInfo {
        id: id.to_string(),
        address: "h".to_string(),
        port: 1,
        status: "Online".to_string(),
        last_heartbeat: 0,
        response_time_ms: rt,
        capabilities: vec![],
        is_available: avail,
    };
    let agents = vec![a("failed", true, Some(1)), a("slow", true, Some(90)), a("busy", false, Some(5)), a("quick", true, Some(20))];
    assert_eq!(find_alternative_agent(&agents, "failed"), Some("quick".to_string()));
    assert_eq!(find_alternative_agent(&vec![a("failed", true, None)], "failed"), None);
}

#[test]
fn error_details_by_kind() {
    let d = get_error_details(&AttackError::AgentUnavailable { agent_id: "a1".to_string() }, "x");
    assert_eq!(d.error_type, "Agent Unavailable");
    assert_eq!(d.message, "Agent 'a1' is not available for request execution");
    assert!(d.is_retryable);
    let d = get_error_details(&AttackError::SessionExpired { session_id: "s".to_string() }, "x");
    assert!(!d.is_retryable);
    assert_eq!(d.remediation.len(), 3);
    let d = get_error_details(&AttackError::Timeout { operation: "op".to_string() }, "Timeout: op");
    assert_eq!(d.error_type, "Unknown Error");
    assert_eq!(d.message, "Timeout: op");
}

#[test]
fn execution_statistics_count_outcomes() {
    let e = |d: Option<u64>, s: Option<i32>, at: i64, err: Option<&str>| ExecutionRecord {
        duration_ms: d,
        status_code: s,
        executed_at: at,
        error: err.map(|x| x.to_string()),
    };
    let records = vec![
        e(Some(100), Some(200), 30, None),
        e(Some(50), Some(404), 20, None),
        e(None, None, 10, Some("timeout")),
        e(Some(10), Some(200), 5, None),
    ];
    let st = get_execution_statistics(&records);
    assert_eq!(st.total_executions, 4);
    assert_eq!(st.successful_executions, 2);
    assert_eq!(st.error_count, 2);
    assert_eq!(st.total_duration_ms, 160);
    assert_eq!(st.status_code_distribution, vec![(200, 2), (404, 1)]);
    assert_eq!(st.last_execution, Some(30));
}
