use orchestrator::logging::levels;

#[test]
fn test_log_level_validation() {
    assert!(levels::is_valid_level("info"));
    assert!(levels::is_valid_level("DEBUG"));
    assert!(levels::is_valid_level("Error"));
    assert!(!levels::is_valid_level("invalid"));
    assert!(!levels::is_valid_level(""));
}

#[test]
fn test_log_level_numeric_conversion() {
    assert_eq!(levels::level_to_numeric("trace"), Some(0));
    assert_eq!(levels::level_to_numeric("debug"), Some(1));
    assert_eq!(levels::level_to_numeric("info"), Some(2));
    assert_eq!(levels::level_to_numeric("warn"), Some(3));
    assert_eq!(levels::level_to_numeric("error"), Some(4));
    assert_eq!(levels::level_to_numeric("invalid"), None);
}

#[test]
fn test_valid_levels_list() {
    let levels = levels::valid_levels();
    assert_eq!(levels.len(), 5);
    assert!(levels.contains(&"info"));
    assert!(levels.contains(&"debug"));
    assert!(levels.contains(&"error"));
}

#[test]
fn level_ranks_are_ordered_and_case_insensitive() {
    assert_eq!(levels::level_to_numeric("WARN"), Some(3));
    assert_eq!(levels::level_to_numeric("TrAcE"), Some(0));
    let all = levels::valid_levels();
    for (i, name) in all.iter().enumerate() {
        assert_eq!(levels::level_to_numeric(name), Some(i as u8));
    }
}
