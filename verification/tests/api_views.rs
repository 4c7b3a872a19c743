use orchestrator::database::flow::{FlowExecutionRow, FlowProfileRow};
use orchestrator::database::intruder::{IntruderAttack, IntruderResult};
use orchestrator::database::{is_alphanumeric, project_folder_name, project_name_from_dir};
use orchestrator::engine::{HttpHeaders, HttpRequestData, HttpResponseData};
use orchestrator::graphql::flow::{ExecutionStatusGql, FlowExecutionGql, FlowProfileGql, FlowTypeGql, ProfileStatusGql};
use orchestrator::repeater::{RepeaterExecutionResponse, RepeaterTabConfig, ValidationStatus};
use orchestrator::graphql::{
    encode_base64,
    RepeaterExecutionGql, RepeaterTabGql,
    HttpRequestTemplateGql, HttpRequestTemplateInput, HttpResponseDataGql, InterceptionConfigGql,
    InterceptionRuleInputGql, IntruderAttackGql, IntruderResultGql, TrafficEvent, TrafficEventGql, TrafficEventKind,
};
use orchestrator::settings::{InterceptionConfig, InterceptionRule, RuleAction, RuleCondition};
use orchestrator::text::{is_whitespace, to_lowercase};

#[test]
fn text_bodies_stay_text_and_binary_becomes_base64() {
    let req = HttpRequestData {
        method: "POST".to_string(),
        url: "http://x/".to_string(),
        headers: None,
        body: b"hello".to_vec(),
    };
    let g = HttpRequestTemplateGql::from_request(req);
    assert_eq!(g.body, "hello");
    assert!(g.headers.is_none());

    let resp = HttpResponseData {
        status_code: 201,
        headers: Some(HttpHeaders { headers: vec![("A".to_string(), "b".to_string())] }),
        body: vec![0xff, 0x00, 0x10],
    };
    let g = HttpResponseDataGql::from_response(resp);
    assert_eq!(g.body, "/wAQ");
    assert_eq!(g.body_length, 3);
    assert_eq!(g.headers, Some(vec![("A".to_string(), "b".to_string())]));
}

#[test]
fn request_input_headers_are_a_json_object() {
    let input = HttpRequestTemplateInput {
        method: "GET".to_string(),
        url: "http://x/".to_string(),
        headers: Some("{\"b\":\"2\",\"a\":\"1\",\"b\":\"3\"}".to_string()),
        body: "é".to_string(),
    };
    let r = input.to_request();
    assert_eq!(r.body, vec![0xc3, 0xa9]);
    let h = r.headers.unwrap().headers;
    assert_eq!(h, vec![("a".to_string(), "1".to_string()), ("b".to_string(), "3".to_string())]);

    let bad = HttpRequestTemplateInput {
        method: "GET".to_string(),
        url: "u".to_string(),
        headers: Some("{\"a\": 1}".to_string()),
        body: String::new(),
    };
    assert!(bad.to_request().headers.is_none());
}

#[test]
fn stored_attacks_are_shown_with_times_and_targets() {
    let a = IntruderAttack {
        id: "1".to_string(),
        name: "n".to_string(),
        request_template: "t".to_string(),
        attack_mode: "sniper".to_string(),
        payload_sets: "[]".to_string(),
        target_agents: "[\"a1\",\"a2\"]".to_string(),
        distribution_strategy: "round_robin".to_string(),
        created_at: 0,
        updated_at: 1_704_067_200,
        status: "configured".to_string(),
    };
    let g = IntruderAttackGql::from_attack(a);
    assert_eq!(g.target_agents, vec!["a1".to_string(), "a2".to_string()]);
    assert_eq!(g.created_at, "1970-01-01T00:00:00+00:00");
    assert_eq!(g.updated_at, "2024-01-01T00:00:00+00:00");

    let broken = IntruderAttack {
        id: "2".to_string(),
        name: "n".to_string(),
        request_template: "t".to_string(),
        attack_mode: "sniper".to_string(),
        payload_sets: "[]".to_string(),
        target_agents: "not json".to_string(),
        distribution_strategy: "round_robin".to_string(),
        created_at: i64::MAX,
        updated_at: 0,
        status: "configured".to_string(),
    };
    let g = IntruderAttackGql::from_attack(broken);
    assert!(g.target_agents.is_empty());
    assert_eq!(g.created_at, "1970-01-01T00:00:00+00:00");
}

#[test]
fn stored_results_are_narrowed() {
    let r = IntruderResult {
        id: "r".to_string(),
        attack_id: "a".to_string(),
        request_data: "{}".to_string(),
        response_data: None,
        agent_id: "g".to_string(),
        payload_values: "[]".to_string(),
        executed_at: 60,
        duration_ms: Some(12),
        status_code: Some(200),
        response_length: Some(4_294_967_297),
        is_highlighted: true,
    };
    let g = IntruderResultGql::from_result(r);
    assert_eq!(g.executed_at, "1970-01-01T00:01:00+00:00");
    assert_eq!(g.duration_ms, Some(12));
    assert_eq!(g.response_length, Some(1));
}

#[test]
fn flow_rows_become_api_values() {
    let row = FlowProfileRow {
        id: "p".to_string(),
        name: "login".to_string(),
        flow_type: "Login".to_string(),
        start_url: "https://e.com".to_string(),
        steps: "[{\"a\":1},2,\"x\"]".to_string(),
        meta: None,
        created_at: 1,
        updated_at: 2,
        agent_id: None,
        status: "Archived".to_string(),
    };
    let g = FlowProfileGql::from_row(row);
    assert_eq!(g.flow_type, FlowTypeGql::Login);
    assert_eq!(g.status, ProfileStatusGql::Archived);
    assert_eq!(g.step_count, 3);

    let odd = FlowProfileRow {
        id: "p".to_string(),
        name: "x".to_string(),
        flow_type: "whatever".to_string(),
        start_url: "u".to_string(),
        steps: "{}".to_string(),
        meta: None,
        created_at: 1,
        updated_at: 2,
        agent_id: None,
        status: "Active".to_string(),
    };
    let g = FlowProfileGql::from_row(odd);
    assert_eq!(g.flow_type, FlowTypeGql::Custom);
    assert_eq!(g.step_count, 0);

    let ex = FlowExecutionRow {
        id: "e".to_string(),
        profile_id: "p".to_string(),
        agent_id: "a".to_string(),
        started_at: 1_000,
        completed_at: Some(1_250),
        status: "Success".to_string(),
        error_message: None,
        steps_completed: 3,
        total_steps: 3,
        session_cookies: None,
        extracted_data: None,
    };
    let g = FlowExecutionGql::from_row(ex);
    assert_eq!(g.duration_ms, Some(250));
    assert_eq!(g.status, ExecutionStatusGql::from_name("Success"));
}

#[test]
fn interception_rules_from_input() {
    let input = InterceptionRuleInputGql {
        name: "r".to_string(),
        enabled: true,
        condition_type: "Method".to_string(),
        condition_value: "GET, POST ,PUT".to_string(),
        action_type: "Drop".to_string(),
    };
    let rule = input.to_interception_rule();
    assert_eq!(rule.id.len(), 36);
    let id: Vec<char> = rule.id.chars().collect();
    assert_eq!(id[14], '4');
    assert!(matches!(id[19], '8' | '9' | 'a' | 'b'));
    assert_eq!(rule.action, RuleAction::Drop);
    match &rule.condition {
        RuleCondition::Method { methods } => {
            assert_eq!(methods, &vec!["GET".to_string(), "POST".to_string(), "PUT".to_string()])
        }
        other => panic!("unexpected {:?}", other),
    }
    let cfg = InterceptionConfig {
        enabled: true,
        rules: vec![rule, InterceptionRule {
            id: "x".to_string(),
            enabled: false,
            name: "all".to_string(),
            condition: RuleCondition::All,
            action: RuleAction::Pause,
        }],
    };
    let g = InterceptionConfigGql::from_config(cfg);
    assert_eq!(g.rules.len(), 2);
    assert_eq!(g.rules[0].condition_type, "Method");
    assert_eq!(g.rules[1].action_type, "Pause");
    assert_eq!(g.rules[1].id, "x");
}

#[test]
fn character_classes_follow_unicode() {
    assert!(is_alphanumeric('é'));
    assert!(is_alphanumeric('٣'));
    assert!(!is_alphanumeric('-'));
    assert!(is_whitespace('\u{2003}'));
    assert!(!is_whitespace('x'));
    assert_eq!(to_lowercase("ÀB"), "àb");
}

#[test]
fn project_directories() {
    assert_eq!(project_folder_name("demo"), "demo.proxxy");
    assert_eq!(project_name_from_dir("demo.proxxy"), Some("demo".to_string()));
    assert_eq!(project_name_from_dir("demo.proxxy.proxxy"), Some("demo".to_string()));
    assert_eq!(project_name_from_dir("demo"), None);
}

#[test]
fn traffic_bodies_are_shown_on_demand() {
    let req = TrafficEvent {
        request_id: "r1".to_string(),
        event: Some(TrafficEventKind::Request(HttpRequestData {
            method: "GET".to_string(),
            url: "http://x/".to_string(),
            headers: None,
            body: Vec::new(),
        })),
    };
    let g = TrafficEventGql::from_event(req, "2024-01-01T00:00:00+00:00".to_string());
    assert_eq!(g.method.as_deref(), Some("GET"));
    assert_eq!(g.status, None);
    assert!(g.agent_id.is_none());
    assert_eq!(g.request_body(), None);
    assert_eq!(g.response_body(), None);

    let resp = TrafficEvent {
        request_id: "r1".to_string(),
        event: Some(TrafficEventKind::Response(HttpResponseData { status_code: 404, headers: None, body: b"nope".to_vec() })),
    };
    let mut g = TrafficEventGql::from_event(resp, "t".to_string());
    assert_eq!(g.status, Some(404));
    assert_eq!(g.response_body(), Some("nope".to_string()));
    g.response_event = Some(TrafficEvent {
        request_id: "r1".to_string(),
        event: Some(TrafficEventKind::Response(HttpResponseData { status_code: 200, headers: None, body: vec![0xff] })),
    });
    assert_eq!(g.response_body(), Some("/w==".to_string()));
}

#[test]
fn repeater_tabs_and_executions_for_the_api() {
    let request = HttpRequestData {
        method: "PUT".to_string(),
        url: "https://e.com/x".to_string(),
        headers: Some(HttpHeaders { headers: vec![("H".to_string(), "v".to_string())] }),
        body: b"data".to_vec(),
    };
    let tab = RepeaterTabConfig {
        id: "t".to_string(),
        name: "tab".to_string(),
        request_template: request,
        target_agent_id: None,
        created_at: 1_500,
        updated_at: 0,
        is_active: true,
        validation_status: ValidationStatus::InvalidAgent { reason: "offline".to_string() },
    };
    let g = RepeaterTabGql::from_config(tab);
    assert_eq!(g.validation_status, "InvalidAgent: offline");
    assert_eq!(g.created_at, "1970-01-01T00:00:01.500+00:00");
    assert_eq!(g.updated_at, "1970-01-01T00:00:00+00:00");
    let t = g.request_template();
    assert_eq!(t.method, "PUT");
    assert_eq!(t.body, "data");
    assert_eq!(t.headers, Some(vec![("H".to_string(), "v".to_string())]));

    let e = RepeaterExecutionResponse {
        execution_id: "e".to_string(),
        tab_id: "t".to_string(),
        request_data: HttpRequestData { method: "GET".to_string(), url: "u".to_string(), headers: None, body: vec![] },
        response_data: Some(HttpResponseData { status_code: 204, headers: None, body: vec![] }),
        agent_id: "a".to_string(),
        duration_ms: Some(7),
        status_code: Some(204),
        executed_at: 60_000,
        error: None,
    };
    let g = RepeaterExecutionGql::from_execution(e);
    assert_eq!(g.executed_at, "1970-01-01T00:01:00+00:00");
    assert_eq!(g.duration_ms, Some(7));
    assert_eq!(g.response_data().unwrap().status_code, 204);
    assert_eq!(g.request_data().method, "GET");
}

#[test]
fn base64_pads_short_groups() {
    assert_eq!(encode_base64(&vec![]), "");
    assert_eq!(encode_base64(&vec![0xff]), "/w==");
    assert_eq!(encode_base64(&vec![0xff, 0xfe]), "//4=");
    assert_eq!(encode_base64(&b"Man".to_vec()), "TWFu");
    assert_eq!(encode_base64(&b"Many".to_vec()), "TWFueQ==");
}

#[test]
fn whitespace_is_the_listed_code_points() {
    let listed = |u: u32| {
        (9..=13).contains(&u)
            || u == 32
            || u == 0x85
            || u == 0xA0
            || u == 0x1680
            || (0x2000..=0x200A).contains(&u)
            || u == 0x2028
            || u == 0x2029
            || u == 0x202F
            || u == 0x205F
            || u == 0x3000
    };
    for u in 0..=0x10FFFFu32 {
        if let Some(c) = char::from_u32(u) {
            assert_eq!(is_whitespace(c), listed(u), "code point {:#x}", u);
        }
    }
}
