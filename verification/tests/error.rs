use bondar::error::BondarError;

#[test]
fn test_error_display() {
    assert_eq!(BondarError::Config("bad".to_string()).message(), "Config error: bad");
    assert_eq!(BondarError::NotFound("x".to_string()).message(), "Not found: x");
    assert_eq!(BondarError::Docker("d".to_string()).message(), "Docker error: d");
}

#[test]
fn test_error_from_json() {
    let err: serde_json::Error = serde_json::from_str::<i32>("abc").unwrap_err();
    let bondar: BondarError = err.into();
    assert!(matches!(bondar, BondarError::Json(_)));
}

#[test]
fn json_errors_are_described() {
    let err = serde_json::from_str::<i32>("abc").unwrap_err();
    let text = err.to_string();
    assert_eq!(BondarError::from(err).message(), format!("JSON error: {text}"));
}

#[test]
fn io_errors_are_described() {
    assert_eq!(BondarError::Io("gone".to_string()).message(), "IO error: gone");
}
