use orchestrator::engine::{AgentInfo, AgentStatus, AttackError, AttackMode, DistributionStrategy, PayloadConfig};
use orchestrator::intruder::{
    attack_mode_name, check_attack_creation, create_attack_template, distribution_strategy_name,
    estimate_request_count, parse_attack_mode, parse_distribution_strategy, validate_agent_selection,
    validate_attack_config, IntruderAttackConfig, PayloadSetCheck, PayloadSetConfig,
};

fn custom(values: &[&str]) -> PayloadConfig {
    PayloadConfig::Custom { values: values.iter().map(|s| s.to_string()).collect() }
}

#[test]
fn test_create_attack_template() {
    let request_data = "GET /api/user?id=123&name=admin HTTP/1.1\r\nHost: example.com\r\n\r\n";
    let payload_positions = vec!["123".to_string(), "admin".to_string()];

    let template = create_attack_template(request_data, &payload_positions).unwrap();

    assert!(template.contains("§payload1§"));
    assert!(template.contains("§payload2§"));
    assert!(!template.contains("123"));
    assert!(!template.contains("admin"));
}

#[test]
fn test_validate_attack_config() {
    let config = IntruderAttackConfig {
        name: "Test Attack".to_string(),
        request_template: "GET /api/test?param=§payload1§ HTTP/1.1\r\n\r\n".to_string(),
        attack_mode: AttackMode::Sniper,
        payload_sets: vec![PayloadSetConfig {
            id: "test-set".to_string(),
            name: "Test Set".to_string(),
            payload_config: custom(&["test1", "test2"]),
            position_index: 0,
        }],
        target_agents: vec!["agent1".to_string()],
        distribution_strategy: DistributionStrategy::RoundRobin,
    };
    // the template has one marked position; the set's generator counts two payloads
    let parsed: Result<Vec<String>, String> = Ok(vec!["payload1".to_string()]);
    let checks = vec![PayloadSetCheck::Counted(2)];

    let validation = validate_attack_config(&config, parsed, &checks);
    assert!(validation.is_valid, "Validation errors: {:?}", validation.errors);
    assert_eq!(validation.payload_positions.len(), 1);
    assert_eq!(validation.estimated_requests, Some(2));
}

#[test]
fn test_estimate_request_count() {
    // set sizes 2 and 3
    let counts = [2usize, 3usize];
    assert_eq!(estimate_request_count(AttackMode::Sniper, &counts), 5);
    assert_eq!(estimate_request_count(AttackMode::BatteringRam, &counts), 3);
    assert_eq!(estimate_request_count(AttackMode::Pitchfork, &counts), 3);
    assert_eq!(estimate_request_count(AttackMode::ClusterBomb, &counts), 6);
}

#[test]
fn test_validate_agent_selection() {
    let available_agents = vec![
        AgentInfo {
            id: "agent1".to_string(),
            hostname: "host1".to_string(),
            status: AgentStatus::Online,
            response_time_ms: Some(100),
        },
        AgentInfo {
            id: "agent2".to_string(),
            hostname: "host2".to_string(),
            status: AgentStatus::Offline,
            response_time_ms: None,
        },
    ];

    assert!(validate_agent_selection(&vec!["agent1".to_string()], &available_agents).is_ok());
    assert!(validate_agent_selection(&vec!["agent2".to_string()], &available_agents).is_err());
    assert!(validate_agent_selection(&vec!["agent3".to_string()], &available_agents).is_err());
}

#[test]
fn invalid_configuration_lists_every_problem() {
    let config = IntruderAttackConfig {
        name: "  ".to_string(),
        request_template: "GET / HTTP/1.1\r\n\r\n".to_string(),
        attack_mode: AttackMode::Sniper,
        payload_sets: vec![PayloadSetConfig {
            id: "s".to_string(),
            name: "S".to_string(),
            payload_config: custom(&[]),
            position_index: 0,
        }],
        target_agents: vec![],
        distribution_strategy: DistributionStrategy::RoundRobin,
    };
    let parsed: Result<Vec<String>, String> = Ok(vec![]);
    let checks = vec![PayloadSetCheck::Counted(0)];
    let v = validate_attack_config(&config, parsed, &checks);
    assert!(!v.is_valid);
    assert_eq!(
        v.errors,
        vec![
            "Attack name cannot be empty".to_string(),
            "Mismatch between payload positions (0) and payload sets (1)".to_string(),
            "Payload set 'S' position index 0 exceeds available positions (0)".to_string(),
            "At least one target agent must be specified".to_string(),
        ]
    );
    assert_eq!(v.warnings, vec!["Payload set 'S' contains no payloads".to_string()]);
    assert_eq!(v.estimated_requests, None);
    match check_attack_creation(&v) {
        Err(AttackError::InvalidPayloadConfig { reason }) => assert!(reason.starts_with("Attack validation failed: ")),
        other => panic!("unexpected {:?}", other),
    }
}

#[test]
fn generator_failures_become_errors() {
    let config = IntruderAttackConfig {
        name: "A".to_string(),
        request_template: "x".to_string(),
        attack_mode: AttackMode::ClusterBomb,
        payload_sets: vec![PayloadSetConfig {
            id: "s".to_string(),
            name: "W".to_string(),
            payload_config: PayloadConfig::Wordlist { file_path: "/nope".to_string(), encoding: "utf-8".to_string() },
            position_index: 0,
        }],
        target_agents: vec!["a".to_string()],
        distribution_strategy: DistributionStrategy::LoadBalanced,
    };
    let parsed: Result<Vec<u8>, String> = Err("unclosed marker".to_string());
    let checks = vec![PayloadSetCheck::CountFailed("missing file".to_string())];
    let v = validate_attack_config(&config, parsed, &checks);
    assert_eq!(
        v.errors,
        vec![
            "Invalid payload position syntax: unclosed marker".to_string(),
            "Mismatch between payload positions (0) and payload sets (1)".to_string(),
            "Failed to count payloads for set 'W': missing file".to_string(),
            "Payload set 'W' position index 0 exceeds available positions (0)".to_string(),
        ]
    );
    assert!(v.payload_positions.is_empty());
}

#[test]
fn template_without_matches_is_refused() {
    let r = create_attack_template("GET / HTTP/1.1", &vec!["zzz".to_string()]);
    assert_eq!(
        r,
        Err(AttackError::InvalidPayloadConfig { reason: "No payload positions were marked in the template".to_string() })
    );
}

#[test]
fn agent_selection_reports_all_problems() {
    let agents = vec![AgentInfo {
        id: "a".to_string(),
        hostname: "h".to_string(),
        status: AgentStatus::Offline,
        response_time_ms: None,
    }];
    match validate_agent_selection(&vec!["a".to_string(), "b".to_string()], &agents) {
        Err(AttackError::AgentUnavailable { agent_id }) => {
            assert!(agent_id.starts_with("Multiple agents: "));
            assert!(agent_id.contains(", "));
        }
        other => panic!("unexpected {:?}", other),
    }
}

#[test]
fn mode_and_strategy_names_round_trip() {
    for m in [AttackMode::Sniper, AttackMode::BatteringRam, AttackMode::Pitchfork, AttackMode::ClusterBomb] {
        assert_eq!(parse_attack_mode(&attack_mode_name(m)), Ok(m));
    }
    assert!(parse_attack_mode("snipe").is_err());
    for s in [DistributionStrategy::RoundRobin, DistributionStrategy::Batch { batch_size: 7 }, DistributionStrategy::LoadBalanced] {
        assert_eq!(parse_distribution_strategy(&distribution_strategy_name(s)), s);
    }
    assert_eq!(distribution_strategy_name(DistributionStrategy::Batch { batch_size: 12 }), "batch:12");
    assert_eq!(parse_distribution_strategy("batch:x"), DistributionStrategy::Batch { batch_size: 100 });
    assert_eq!(parse_distribution_strategy("whatever"), DistributionStrategy::RoundRobin);
}
