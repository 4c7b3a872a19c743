use orchestrator::engine::AttackError;
use orchestrator::error_handling::{
    counts_toward_circuit_breaker, determine_fallback_action, error_handling_outcome, validate_input, AgentFailures, ErrorStatistics, FallbackAction,
};

#[test]
fn empty_input_is_rejected_by_known_validators() {
    let r = validate_input(Ok(String::new()), None, "repeater_request");
    assert!(!r.is_valid);
    assert_eq!(r.errors.len(), 1);
    assert_eq!(r.errors[0].field, "request");
    assert_eq!(r.errors[0].error_code, "EMPTY_REQUEST");
    assert!(r.warnings.is_empty());

    let r = validate_input(Ok("{}".to_string()), None, "intruder_attack");
    assert!(r.is_valid);
}

#[test]
fn unknown_validator_and_sensitive_data_warn() {
    let r = validate_input(Ok("{\"password\":\"x\"}".to_string()), Some("password".to_string()), "other");
    assert!(r.is_valid);
    assert_eq!(
        r.warnings,
        vec![
            "Potential sensitive data detected: password".to_string(),
            "Unknown validator 'other' - performing basic validation only".to_string(),
        ]
    );
    let r = validate_input(Err("bad".to_string()), None, "session_data");
    assert!(!r.is_valid);
    assert_eq!(r.errors[0].error_code, "SERIALIZATION_ERROR");
    assert_eq!(r.errors[0].message, "Failed to serialize input: bad");
}

#[test]
fn fallbacks_by_error_kind() {
    let agents = vec!["b".to_string()];
    match determine_fallback_action(&AttackError::AgentUnavailable { agent_id: "a".to_string() }, &agents) {
        Some(FallbackAction::UseFallbackAgent { agent_ids }) => assert_eq!(agent_ids, agents),
        other => panic!("unexpected {:?}", other),
    }
    assert!(determine_fallback_action(&AttackError::AgentUnavailable { agent_id: "a".to_string() }, &vec![]).is_none());
    assert!(matches!(
        determine_fallback_action(&AttackError::ResourceExhaustion { resource: "memory".to_string() }, &vec![]),
        Some(FallbackAction::ReduceLoad)
    ));
    assert!(matches!(
        determine_fallback_action(&AttackError::RateLimitExceeded { retry_after_ms: None }, &vec![]),
        Some(FallbackAction::BackoffAndRetry { delay_ms: 60000 })
    ));
    assert!(matches!(
        determine_fallback_action(&AttackError::RateLimitExceeded { retry_after_ms: Some(5) }, &vec![]),
        Some(FallbackAction::BackoffAndRetry { delay_ms: 5 })
    ));
    assert!(determine_fallback_action(&AttackError::Timeout { operation: "x".to_string() }, &vec![]).is_none());
}

#[test]
fn open_circuit_fails_fast() {
    let e = AttackError::NetworkError { details: "down".to_string() };
    let r = error_handling_outcome(&e, true, true, 3, 100, true, &vec![], 7);
    assert!(!r.should_retry);
    assert!(matches!(r.fallback_action, Some(FallbackAction::FailFast)));
    assert!(!r.degradation_applied);
    let r = error_handling_outcome(&e, false, true, 3, 100, true, &vec![], 8);
    assert!(r.should_retry);
    assert_eq!(r.retry_delay_ms, Some(100));
    assert_eq!(r.error_id, 8);
    let r = error_handling_outcome(&e, false, true, 0, 100, false, &vec![], 9);
    assert!(!r.should_retry);
    assert_eq!(r.retry_delay_ms, None);
}

#[test]
fn third_failure_in_a_row_is_quick() {
    let mut f = AgentFailures::new();
    assert!(!f.detect_agent_failure("a", 1));
    assert!(!f.detect_agent_failure("a", 2));
    assert!(!f.detect_agent_failure("b", 2));
    assert!(f.detect_agent_failure("a", 3));
    assert!(f.trackers[0].is_marked_unhealthy);
    f.mark_agent_healthy("a");
    assert_eq!(f.trackers[0].consecutive_failures, 0);
    assert!(!f.detect_agent_failure("a", 4));
}

#[test]
fn only_runtime_failures_trip_the_breaker() {
    assert!(counts_toward_circuit_breaker(&AttackError::AgentUnavailable { agent_id: "a".to_string() }));
    assert!(counts_toward_circuit_breaker(&AttackError::NetworkError { details: "d".to_string() }));
    assert!(counts_toward_circuit_breaker(&AttackError::Timeout { operation: "o".to_string() }));
    assert!(counts_toward_circuit_breaker(&AttackError::ExecutionFailed { error: "e".to_string() }));
    assert!(!counts_toward_circuit_breaker(&AttackError::InvalidAttackConfig { reason: "r".to_string() }));
    assert!(!counts_toward_circuit_breaker(&AttackError::DatabaseError { operation: "o".to_string() }));
    assert!(!counts_toward_circuit_breaker(&AttackError::RateLimitExceeded { retry_after_ms: None }));
    assert!(!counts_toward_circuit_breaker(&AttackError::ResourceExhaustion { resource: "m".to_string() }));
}

#[test]
fn each_error_counts_once_in_total_severity_and_category() {
    let mut st = ErrorStatistics::new(10);
    st.record_error("High", "Network", 20);
    st.record_error("High", "Configuration", 30);
    st.record_error("Low", "Network", 40);
    assert_eq!(st.total_errors, 3);
    assert_eq!(st.errors_by_severity, vec![("High".to_string(), 2), ("Low".to_string(), 1)]);
    assert_eq!(st.errors_by_category, vec![("Network".to_string(), 2), ("Configuration".to_string(), 1)]);
    assert!(st.errors_by_component.is_empty());
    assert_eq!(st.circuit_breaker_trips, 0);
    assert_eq!(st.last_updated, 40);
}
