use orchestrator::engine::PayloadConfig;
use orchestrator::graphql::{payload_config_from_input, payload_set_from_input, PayloadConfigInput, PayloadSetConfigInput};

fn input(ty: &str, data: &str) -> PayloadConfigInput {
    PayloadConfigInput { config_type: ty.to_string(), config_data: data.to_string() }
}

#[test]
fn wordlist_settings_and_defaults() {
    match payload_config_from_input(input("wordlist", r#"{"file_path":"/w.txt","encoding":"latin1"}"#)) {
        PayloadConfig::Wordlist { file_path, encoding } => {
            assert_eq!(file_path, "/w.txt");
            assert_eq!(encoding, "latin1");
        }
        other => panic!("unexpected {:?}", other),
    }
    match payload_config_from_input(input("wordlist", r#"{"file_path":7}"#)) {
        PayloadConfig::Wordlist { file_path, encoding } => {
            assert_eq!(file_path, "");
            assert_eq!(encoding, "utf-8");
        }
        other => panic!("unexpected {:?}", other),
    }
}

#[test]
fn number_range_settings_and_defaults() {
    match payload_config_from_input(input("number_range", r#"{"start":5,"end":9,"step":2,"format":"id-{}"}"#)) {
        PayloadConfig::NumberRange { start, end, step, format } => {
            assert_eq!((start, end, step), (5, 9, 2));
            assert_eq!(format, "id-{}");
        }
        other => panic!("unexpected {:?}", other),
    }
    match payload_config_from_input(input("number_range", "{}")) {
        PayloadConfig::NumberRange { start, end, step, format } => {
            assert_eq!((start, end, step), (1, 100, 1));
            assert_eq!(format, "{}");
        }
        other => panic!("unexpected {:?}", other),
    }
}

#[test]
fn custom_values_keep_only_strings() {
    match payload_config_from_input(input("custom", r#"{"values":["a",1,"b",null]}"#)) {
        PayloadConfig::Custom { values } => assert_eq!(values, vec!["a".to_string(), "b".to_string()]),
        other => panic!("unexpected {:?}", other),
    }
    match payload_config_from_input(input("custom", r#"{"values":"a"}"#)) {
        PayloadConfig::Custom { values } => assert!(values.is_empty()),
        other => panic!("unexpected {:?}", other),
    }
}

#[test]
fn unparsable_or_unknown_settings_give_an_empty_custom_list() {
    for (ty, data) in [("wordlist", "not json"), ("number_range", "{"), ("custom", ""), ("other", "{}")] {
        match payload_config_from_input(input(ty, data)) {
            PayloadConfig::Custom { values } => assert!(values.is_empty()),
            other => panic!("unexpected {:?}", other),
        }
    }
}

#[test]
fn payload_set_input_keeps_its_fields() {
    let s = payload_set_from_input(PayloadSetConfigInput {
        id: "s1".to_string(),
        name: "users".to_string(),
        position_index: 2,
        configuration: input("custom", r#"{"values":["x"]}"#),
    });
    assert_eq!(s.id, "s1");
    assert_eq!(s.name, "users");
    assert_eq!(s.position_index, 2);
    match s.payload_config {
        PayloadConfig::Custom { values } => assert_eq!(values, vec!["x".to_string()]),
        other => panic!("unexpected {:?}", other),
    }
}
