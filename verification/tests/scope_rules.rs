use orchestrator::database::ScopeRule;
use orchestrator::scope::{extract_host, is_in_scope, matches_pattern};

fn mock_rule(rule_type: &str, pattern: &str, is_regex: bool) -> ScopeRule {
    ScopeRule {
        id: "test".to_string(),
        rule_type: rule_type.to_string(),
        pattern: pattern.to_string(),
        is_regex,
        enabled: true,
        created_at: 0,
    }
}

#[test]
fn test_empty_rules() {
    assert!(is_in_scope(&[], "https://example.com"));
}

#[test]
fn test_exclude_only() {
    let rules = vec![mock_rule("Exclude", "*.google.com", false)];
    assert!(is_in_scope(&rules, "https://example.com"));
    assert!(!is_in_scope(&rules, "https://google.com"));
}

#[test]
fn test_include_with_exclude() {
    let rules = vec![
        mock_rule("Include", "*.example.com", false),
        mock_rule("Exclude", "admin.example.com", false),
    ];

    assert!(is_in_scope(&rules, "https://api.example.com"));
    assert!(!is_in_scope(&rules, "https://admin.example.com"));
    assert!(!is_in_scope(&rules, "https://google.com"));
}

#[test]
fn test_regex_rules() {
    let rules = vec![mock_rule("Include", r"^api\d+\.com$", true)];
    assert!(is_in_scope(&rules, "https://api1.com"));
    assert!(!is_in_scope(&rules, "https://api.com"));
}

#[test]
fn extract_host_strips_scheme_path_and_port() {
    assert_eq!(extract_host("https://api.example.com:8443/v1/users"), "api.example.com");
    assert_eq!(extract_host("http://example.com"), "example.com");
    assert_eq!(extract_host("http://http://twice.org/x"), "twice.org");
    assert_eq!(extract_host("example.com/path"), "example.com");
    assert_eq!(extract_host(""), "");
}

#[test]
fn disabled_rules_are_ignored() {
    let mut rule = mock_rule("Exclude", "*.example.com", false);
    rule.enabled = false;
    let rules = vec![rule];
    assert!(is_in_scope(&rules, "https://api.example.com"));
}

#[test]
fn exclude_wins_over_include() {
    let rules = vec![
        mock_rule("Include", "*.example.com", false),
        mock_rule("Exclude", "*.example.com", false),
    ];
    assert!(!is_in_scope(&rules, "https://api.example.com"));
}

#[test]
fn invalid_patterns_match_nothing() {
    assert!(!matches_pattern("(unclosed", "anything", true));
    assert!(!matches_pattern("***", "anything", false));
    let rules = vec![mock_rule("Include", "(unclosed", true)];
    assert!(!is_in_scope(&rules, "https://anything.com"));
}

#[test]
fn glob_wildcard_names_apex_domain() {
    assert!(matches_pattern("*.example.com", "example.com", false));
    assert!(matches_pattern("*.example.com", "a.b.example.com", false));
    assert!(!matches_pattern("*.example.com", "badexample.com", false));
}
