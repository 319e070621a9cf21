use minigrep::run_search;
use minigrep::Config;
use minigrep::ConfigError;

#[test]
fn test_valid_config() -> Result<(), ConfigError> {
    let args = &vec![
        "minigrep".to_string(),
        "filename".to_string(),
        "query".to_string(),
    ];
    Config::new(&args, false).map(|_| ())
}

#[test]
fn test_invalid_config() -> Result<(), &'static str> {
    let args = &vec!["minigrep".to_string(), "filename".to_string()];
    let config = Config::new(&args, false);
    match config {
        Ok(_) => Err("shouldn't happen!"),
        Err(_) => Ok(()),
    }
}

#[test]
fn config_fields_with_toggle_unset() {
    let args = vec![
        "program".to_string(),
        "query".to_string(),
        "file.txt".to_string(),
    ];
    let config = Config::new(&args, false).unwrap();
    assert_eq!(config.query, "query");
    assert_eq!(config.filename, "file.txt");
    assert!(config.case_sensitive);
}

#[test]
fn config_toggle_set_disables_case_sensitivity() {
    let args = vec![
        "program".to_string(),
        "query".to_string(),
        "file.txt".to_string(),
    ];
    let config = Config::new(&args, true).unwrap();
    assert!(!config.case_sensitive);
}

#[test]
fn config_missing_filename() {
    let args = vec!["program".to_string(), "file.txt".to_string()];
    let error = Config::new(&args, false).unwrap_err();
    assert_eq!(ConfigError::MissingFilename, error);
}

#[test]
fn config_missing_query() {
    let args = vec!["program".to_string()];
    let error = Config::new(&args, false).unwrap_err();
    assert_eq!(ConfigError::MissingQuery, error);
}

#[test]
fn config_no_arguments_at_all() {
    let args: Vec<String> = Vec::new();
    let error = Config::new(&args, false).unwrap_err();
    assert_eq!(ConfigError::MissingQuery, error);
}

#[test]
fn config_error_messages() {
    assert_eq!("missing query", ConfigError::MissingQuery.message());
    assert_eq!("missing filename", ConfigError::MissingFilename.message());
}

#[test]
fn run_search_respects_case_sensitive_mode() {
    let args = vec![
        "program".to_string(),
        "rUsT".to_string(),
        "file.txt".to_string(),
    ];
    let config = Config::new(&args, false).unwrap();
    let content = "Rust:\nTrust me.";
    let empty: Vec<&str> = Vec::new();
    assert_eq!(empty, run_search(&config, content));
}

#[test]
fn run_search_respects_case_insensitive_mode() {
    let args = vec![
        "program".to_string(),
        "rUsT".to_string(),
        "file.txt".to_string(),
    ];
    let config = Config::new(&args, true).unwrap();
    let content = "Rust:\nTrust me.";
    assert_eq!(vec!["Rust:", "Trust me."], run_search(&config, content));
}
