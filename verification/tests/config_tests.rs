use minigrep::config::Config;
use minigrep::error::SearchError;

fn args(parts: &[&str]) -> Vec<String> {
    parts.iter().map(|p| p.to_string()).collect()
}

#[test]
fn resolve_without_positional_arguments_fails() {
    let result = Config::new(&args(&["prog"]), false);
    assert!(matches!(result, Err(SearchError::ArgumentError)));
}

#[test]
fn resolve_with_one_positional_argument_fails() {
    let result = Config::new(&args(&["prog", "query"]), false);
    assert!(matches!(result, Err(SearchError::ArgumentError)));
}

#[test]
fn resolve_with_query_and_path_succeeds() {
    let config = Config::new(&args(&["prog", "needle", "notes.txt"]), false).unwrap();
    assert_eq!(config.query().as_str(), "needle");
    assert_eq!(config.file_path().as_str(), "notes.txt");
    assert!(!config.case_insensitive());
}

#[test]
fn resolve_records_the_case_toggle() {
    let config = Config::new(&args(&["prog", "needle", "notes.txt"]), true).unwrap();
    assert!(config.case_insensitive());
}

#[test]
fn resolve_ignores_extra_arguments() {
    let config = Config::new(&args(&["prog", "a", "b", "c", "d"]), false).unwrap();
    assert_eq!(config.query().as_str(), "a");
    assert_eq!(config.file_path().as_str(), "b");
}

#[test]
fn resolve_rejects_an_empty_query_or_path() {
    assert!(matches!(
        Config::new(&args(&["prog", "", "notes.txt"]), false),
        Err(SearchError::ArgumentError)
    ));
    assert!(matches!(
        Config::new(&args(&["prog", "needle", ""]), false),
        Err(SearchError::ArgumentError)
    ));
}

#[test]
fn error_messages_name_the_failure_kind() {
    assert_eq!(
        SearchError::ArgumentError.message(),
        "argument error: a query and a file path are required"
    );
    assert_eq!(
        SearchError::FileReadError("no such file".to_string()).message(),
        "file read error: no such file"
    );
}
