use orchestrator::logging::{log_directives, LoggingConfig};

#[test]
fn test_default_logging_config() {
    let config = LoggingConfig::default();
    assert_eq!(config.level, "info");
    assert!(!config.json_format);
    assert!(config.include_timestamp);
    assert!(config.include_thread_names);
    assert!(!config.include_file_info);
    assert!(!config.enable_span_events);
    assert!(config.enable_colors);
    assert!(config.log_file.is_none());
    assert_eq!(config.max_file_size_mb, 100);
    assert_eq!(config.max_files, 5);
    assert!(!config.module_levels.is_empty());
}

#[test]
fn default_directives_name_each_module() {
    let config = LoggingConfig::default();
    let d = log_directives(&config);
    assert_eq!(
        d,
        vec![
            "orchestrator=info".to_string(),
            "sqlx=warn".to_string(),
            "tonic=info".to_string(),
            "hyper=warn".to_string(),
            "tokio=warn".to_string(),
        ]
    );
}
