use orchestrator::database::intruder::IntruderResult;
use orchestrator::database::repeater::RepeaterExecution;
use orchestrator::engine::{AttackError, HttpResponseData};
use orchestrator::result_streaming::streams::{secs_to_millis, streamed_from_intruder, streamed_from_repeater, ResultStreamingManager};
use orchestrator::result_streaming::ResultSource;

fn intruder_result(id: &str, status: Option<i32>) -> IntruderResult {
    IntruderResult {
        id: id.to_string(),
        attack_id: "test-attack".to_string(),
        request_data: "{}".to_string(),
        response_data: None,
        agent_id: "agent-1".to_string(),
        payload_values: "[\"a\",\"b\"]".to_string(),
        executed_at: 1_704_067_200,
        duration_ms: Some(150),
        status_code: status,
        response_length: Some(10),
        is_highlighted: false,
    }
}

#[test]
fn test_result_streaming_manager_creation() {
    let manager = ResultStreamingManager::new();
    let config = &manager.highlighting;

    assert!(config.auto_highlight_enabled);
    assert!(!config.rules.is_empty());
    assert_eq!(config.max_highlighted_results, 1000);
}

#[test]
fn test_start_stop_tracking() {
    let mut manager = ResultStreamingManager::new();
    let source = ResultSource::Intruder { attack_id: "test-attack".to_string() };

    let result = manager.start_tracking(&source, 100, 0);
    assert!(result.is_ok());

    let result = manager.stop_tracking(&source);
    assert!(result.is_ok());
}

#[test]
fn results_are_highlighted_counted_and_stored() {
    let mut manager = ResultStreamingManager::new();
    let source = ResultSource::Intruder { attack_id: "test-attack".to_string() };
    manager.start_tracking(&source, 2, 1_000).unwrap();

    let r = streamed_from_intruder(&intruder_result("r1", Some(500)), 0);
    assert_eq!(r.executed_at, 1_704_067_200_000);
    assert_eq!(r.payload_values, Some(vec!["a".to_string(), "b".to_string()]));
    let response = HttpResponseData { status_code: 500, headers: None, body: b"boom".to_vec() };
    assert!(manager.has_room(&source, "agent-1"));
    let out = manager.process_result(&source, r, Some(&response), 2_000).unwrap();
    assert!(out.is_highlighted);
    assert_eq!(out.highlight_reasons, vec!["Error Status Codes: HTTP error status codes (4xx, 5xx)".to_string()]);

    let t = &manager.trackers[0].tracker;
    assert_eq!(t.completed_requests, 1);
    assert_eq!(t.failed_requests, 1);
    assert_eq!(t.highlighted_results, 1);
    assert_eq!(manager.storage[0].results.len(), 1);
    assert_eq!(manager.storage[0].results[0].result_id, "r1");

    // without a response nothing is highlighted
    let r2 = streamed_from_intruder(&intruder_result("r2", Some(200)), 0);
    let out = manager.process_result(&source, r2, None, 3_000).unwrap();
    assert!(!out.is_highlighted);
    assert_eq!(manager.trackers[0].tracker.successful_requests, 1);
    assert_eq!(manager.storage[0].results.len(), 2);

    // once tracking stops, results are refused but the store stays
    manager.stop_tracking(&source).unwrap();
    let r3 = streamed_from_intruder(&intruder_result("r3", Some(200)), 0);
    match manager.process_result(&source, r3, None, 4_000) {
        Err(AttackError::InvalidAttackConfig { reason }) => {
            assert_eq!(reason, "No statistics tracker found for source: intruder:test-attack")
        }
        other => panic!("unexpected {:?}", other),
    }
    assert_eq!(manager.storage[0].results.len(), 2);
}

#[test]
fn restarting_tracking_clears_the_store() {
    let mut manager = ResultStreamingManager::new();
    let a = ResultSource::Repeater { tab_id: "a".to_string() };
    let b = ResultSource::Repeater { tab_id: "b".to_string() };
    manager.start_tracking(&a, 1, 0).unwrap();
    manager.start_tracking(&b, 1, 0).unwrap();
    let exec = RepeaterExecution {
        id: "x".to_string(),
        tab_id: "a".to_string(),
        request_data: "{}".to_string(),
        response_data: None,
        agent_id: "g".to_string(),
        executed_at: 5,
        duration_ms: None,
        status_code: Some(204),
    };
    let resp = HttpResponseData { status_code: 204, headers: None, body: vec![1, 2, 3] };
    let r = streamed_from_repeater(&exec, Some(&resp), 0);
    assert_eq!(r.response_length, Some(3));
    assert_eq!(r.executed_at, 5_000);
    manager.process_result(&a, r, None, 1).unwrap();
    assert_eq!(manager.storage[0].results.len(), 1);
    manager.start_tracking(&a, 1, 9).unwrap();
    assert_eq!(manager.trackers.len(), 2);
    assert_eq!(manager.storage[0].results.len(), 0);
    assert_eq!(manager.trackers[0].tracker.start_time, 9);
}

#[test]
fn unrepresentable_times_fall_back() {
    assert_eq!(secs_to_millis(60), Some(60_000));
    assert_eq!(secs_to_millis(i64::MAX), None);
    let mut r = intruder_result("r", None);
    r.executed_at = i64::MAX;
    r.payload_values = "oops".to_string();
    let s = streamed_from_intruder(&r, 77);
    assert_eq!(s.executed_at, 77);
    assert_eq!(s.payload_values, None);
}
