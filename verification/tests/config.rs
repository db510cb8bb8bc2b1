use minigrep::{Config, ConfigError};

fn strings(args: &[&str]) -> Vec<String> {
    args.iter().map(|a| String::from(*a)).collect()
}

#[test]
fn missing_query_is_reported() {
    let result = Config::new(Vec::new(), None);
    assert!(matches!(result, Err(ConfigError::MissingQuery)));
}

#[test]
fn missing_filename_is_reported() {
    let result = Config::new(strings(&["foo"]), None);
    assert!(matches!(result, Err(ConfigError::MissingFilename)));
}

#[test]
fn query_and_filename_are_taken_in_order() {
    let config = Config::new(strings(&["foo", "bar.txt"]), None).unwrap();
    assert_eq!("foo", config.query);
    assert_eq!("bar.txt", config.filename);
    assert!(config.case_sensitive);
}

#[test]
fn flag_disables_case_sensitivity() {
    let config = Config::new(strings(&["foo", "bar.txt", "-i"]), None).unwrap();
    assert!(!config.case_sensitive);
}

#[test]
fn other_third_argument_keeps_case_sensitivity() {
    let config = Config::new(strings(&["foo", "bar.txt", "-x"]), None).unwrap();
    assert!(config.case_sensitive);
}

#[test]
fn environment_variable_forces_case_insensitive() {
    let config = Config::new(
        strings(&["foo", "bar.txt"]),
        Some(String::from("1")),
    )
    .unwrap();
    assert!(!config.case_sensitive);
}

#[test]
fn empty_environment_value_still_forces_case_insensitive() {
    let config = Config::new(
        strings(&["foo", "bar.txt"]),
        Some(String::new()),
    )
    .unwrap();
    assert!(!config.case_sensitive);
}

#[test]
fn environment_variable_wins_over_the_flag() {
    let config = Config::new(
        strings(&["foo", "bar.txt", "-i"]),
        Some(String::from("anything")),
    )
    .unwrap();
    assert!(!config.case_sensitive);
}
