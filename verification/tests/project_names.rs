use orchestrator::database::Project;
use orchestrator::project_startup::{check_cli_project_name, is_valid_project_name, project_exists, scope_or_default};

#[test]
fn test_project_name_validation() {
    // Valid names
    assert!(is_valid_project_name("test"));
    assert!(is_valid_project_name("test-project"));
    assert!(is_valid_project_name("test_project"));
    assert!(is_valid_project_name("test123"));
    assert!(is_valid_project_name("Test-Project_123"));

    // Invalid names
    assert!(!is_valid_project_name(""));
    assert!(!is_valid_project_name("test project")); // space
    assert!(!is_valid_project_name("test.project")); // dot
    assert!(!is_valid_project_name("test@project")); // special char
    assert!(!is_valid_project_name("test/project")); // slash
}

#[test]
fn unicode_letters_count_as_alphanumeric() {
    assert!(is_valid_project_name("café"));
    assert!(is_valid_project_name("проект-1"));
    assert!(!is_valid_project_name("a\u{00a0}b"));
}

#[test]
fn cli_name_error_explains_the_rule() {
    assert_eq!(check_cli_project_name("ok_name"), Ok(()));
    assert_eq!(
        check_cli_project_name("bad name"),
        Err("Invalid project name 'bad name'. Use only alphanumeric characters, hyphens, and underscores".to_string())
    );
}

#[test]
fn unreadable_scope_falls_back_to_defaults() {
    let c = scope_or_default(Err("db down".to_string()));
    assert!(!c.enabled);
    assert!(c.include_patterns.is_empty());
    assert!(c.exclude_patterns.is_empty());
    assert!(!c.use_regex);
}

#[test]
fn existing_projects_are_found_by_name() {
    let p = |n: &str| Project {
        name: n.to_string(),
        path: format!("/data/{}.proxxy", n),
        size_bytes: 0,
        last_modified: String::new(),
        is_active: false,
    };
    let projects = vec![p("alpha"), p("beta")];
    assert!(project_exists(&projects, "beta"));
    assert!(!project_exists(&projects, "gamma"));
    assert!(!project_exists(&vec![], "alpha"));
}
