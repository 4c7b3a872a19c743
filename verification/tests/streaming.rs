use orchestrator::engine::{HttpHeaders, HttpResponseData};
use orchestrator::result_streaming::{
    apply_highlighting_rules, create_default_highlight_rules, evaluate_highlight_condition, export_as_csv,
    export_as_html, export_as_xml, format_utc, get_source_id, utf8_lossy, HighlightCondition, HighlightRule,
    HighlightingConfig, LogicalOperator, ResultSource, StatisticsTracker, StreamedResult,
};

// 2024-01-01T00:00:00Z
const AT: i64 = 1_704_067_200_000;

fn create_test_result() -> StreamedResult {
    StreamedResult {
        result_id: "test-result-1".to_string(),
        agent_id: "agent-1".to_string(),
        status_code: Some(200),
        response_length: Some(1024),
        duration_ms: Some(150),
        executed_at: AT,
        payload_values: Some(vec!["test".to_string()]),
        is_highlighted: false,
        highlight_reasons: Vec::new(),
    }
}

fn create_test_response() -> HttpResponseData {
    HttpResponseData {
        status_code: 200,
        headers: Some(HttpHeaders {
            headers: vec![("Content-Type".to_string(), "application/json".to_string())],
        }),
        body: b"Test response body".to_vec(),
    }
}

#[test]
fn test_highlight_condition_evaluation() {
    let result = create_test_result();
    let response = create_test_response();

    let condition = HighlightCondition::StatusCode(vec![200, 201]);
    assert!(evaluate_highlight_condition(&condition, &result, &response));

    let condition = HighlightCondition::StatusCode(vec![404, 500]);
    assert!(!evaluate_highlight_condition(&condition, &result, &response));

    let condition = HighlightCondition::ResponseLength { min: Some(10), max: Some(100) };
    assert!(evaluate_highlight_condition(&condition, &result, &response));

    let condition = HighlightCondition::ResponseContains { text: "Test response".to_string(), case_sensitive: true };
    assert!(evaluate_highlight_condition(&condition, &result, &response));
}

#[test]
fn test_export_formats() {
    let results = vec![create_test_result()];

    let csv_result = export_as_csv(&results);
    assert!(csv_result.contains("Result ID,Agent ID"));

    let xml_result = export_as_xml(&results);
    assert!(xml_result.contains("<results>"));

    let html_result = export_as_html(&results);
    assert!(html_result.contains("<table>"));
}

#[test]
fn csv_row_has_every_column() {
    let mut r = create_test_result();
    r.is_highlighted = true;
    r.highlight_reasons = vec!["a".to_string(), "b".to_string()];
    let csv = export_as_csv(&vec![r]);
    assert_eq!(
        csv,
        "Result ID,Agent ID,Status Code,Response Length,Duration (ms),Executed At,Is Highlighted,Highlight Reasons\n\
         test-result-1,agent-1,200,1024,150,2024-01-01 00:00:00 UTC,true,a; b\n"
    );
}

#[test]
fn utc_times_are_formatted_by_chrono() {
    assert_eq!(format_utc(AT), Some("2024-01-01 00:00:00 UTC".to_string()));
    assert_eq!(format_utc(1_500), Some("1970-01-01 00:00:01 UTC".to_string()));
    assert_eq!(format_utc(i64::MAX), None);
}

#[test]
fn invalid_utf8_is_replaced() {
    assert_eq!(utf8_lossy(b"ok"), "ok");
    assert_eq!(utf8_lossy(&[0x61, 0xff, 0x62]), "a\u{fffd}b");
}

#[test]
fn conditions_of_every_kind() {
    let result = create_test_result();
    let response = create_test_response();
    let yes = |c: HighlightCondition| evaluate_highlight_condition(&c, &result, &response);
    assert!(yes(HighlightCondition::StatusCodeRange { min: 200, max: 299 }));
    assert!(!yes(HighlightCondition::ResponseTime { min_ms: Some(200), max_ms: None }));
    assert!(yes(HighlightCondition::ResponseContains { text: "TEST".to_string(), case_sensitive: false }));
    assert!(!yes(HighlightCondition::ResponseContains { text: "TEST".to_string(), case_sensitive: true }));
    assert!(yes(HighlightCondition::ResponseRegex("resp[a-z]+ body$".to_string())));
    assert!(!yes(HighlightCondition::ResponseRegex("(".to_string())));
    assert!(yes(HighlightCondition::HeaderExists("Content-Type".to_string())));
    assert!(yes(HighlightCondition::HeaderValue {
        name: "Content-Type".to_string(),
        value: "APPLICATION/JSON".to_string(),
        case_sensitive: false
    }));
    assert!(yes(HighlightCondition::Combined {
        operator: LogicalOperator::And,
        conditions: vec![
            HighlightCondition::StatusCode(vec![200]),
            HighlightCondition::HeaderExists("Content-Type".to_string()),
        ],
    }));
    assert!(yes(HighlightCondition::Combined {
        operator: LogicalOperator::Not,
        conditions: vec![HighlightCondition::StatusCode(vec![500])],
    }));
}

#[test]
fn highlighting_collects_reasons_of_enabled_rules() {
    let result = create_test_result();
    let response = create_test_response();
    let config = HighlightingConfig { rules: create_default_highlight_rules(), max_highlighted_results: 1000, auto_highlight_enabled: true };
    assert_eq!(config.rules.len(), 4);
    let (h, reasons) = apply_highlighting_rules(&config, &result, &response);
    assert!(h);
    assert_eq!(reasons, vec!["Success Status Codes: HTTP success status codes (2xx)".to_string()]);

    let off = HighlightingConfig { rules: create_default_highlight_rules(), max_highlighted_results: 1000, auto_highlight_enabled: false };
    assert_eq!(apply_highlighting_rules(&off, &result, &response), (false, vec![]));

    let disabled = HighlightingConfig {
        rules: vec![HighlightRule {
            id: "x".to_string(),
            name: "X".to_string(),
            description: "d".to_string(),
            condition: HighlightCondition::StatusCode(vec![200]),
            priority: 1,
            enabled: false,
            color: None,
        }],
        max_highlighted_results: 1,
        auto_highlight_enabled: true,
    };
    assert_eq!(apply_highlighting_rules(&disabled, &result, &response), (false, vec![]));
}

#[test]
fn source_ids_name_the_kind() {
    assert_eq!(get_source_id(&ResultSource::Intruder { attack_id: "test-attack".to_string() }), "intruder:test-attack");
    assert_eq!(get_source_id(&ResultSource::Repeater { tab_id: "t1".to_string() }), "repeater:t1");
}

#[test]
fn statistics_count_results_per_agent() {
    let mut t = StatisticsTracker::new(100, 5);
    let ok = create_test_result();
    let mut failed = create_test_result();
    failed.status_code = Some(500);
    failed.is_highlighted = true;
    let mut other = create_test_result();
    other.agent_id = "agent-2".to_string();
    other.status_code = None;
    other.duration_ms = None;
    t.update_statistics(&ok, 10);
    t.update_statistics(&failed, 11);
    t.update_statistics(&other, 12);
    assert_eq!(t.completed_requests, 3);
    assert_eq!(t.successful_requests, 1);
    assert_eq!(t.failed_requests, 2);
    assert_eq!(t.highlighted_results, 1);
    assert_eq!(t.status_codes, vec![(200, 1), (500, 1)]);
    assert_eq!(t.response_times, vec![150, 150]);
    assert_eq!(t.last_update, 12);
    assert_eq!(t.agent_stats.len(), 2);
    assert_eq!(t.agent_stats[0].agent_id, "agent-1");
    assert_eq!(t.agent_stats[0].completed_requests, 2);
    assert_eq!(t.agent_stats[0].failed_requests, 1);
    assert_eq!(t.agent_stats[1].last_activity, Some(12));
}

#[test]
fn response_times_keep_a_window() {
    let mut t = StatisticsTracker::new(0, 0);
    let mut r = create_test_result();
    for i in 0..10_001u64 {
        r.duration_ms = Some(i);
        t.update_statistics(&r, 0);
    }
    assert_eq!(t.response_times.len(), 5_001);
    assert_eq!(t.response_times[0], 5_000);
    // per agent at most 1000 are kept: after 1001 the oldest 500 went
    assert!(t.agent_stats[0].response_times.len() <= 1000);
}
