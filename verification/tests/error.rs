use openscad_mcp::error::{Error, Result};

#[test]
fn test_render_error() {
    let err = Error::Render("Failed to render model".to_string());
    assert_eq!(err.to_string(), "render error: Failed to render model");
}

#[test]
fn test_cache_error() {
    let err = Error::Cache("Cache miss".to_string());
    assert_eq!(err.to_string(), "cache error: Cache miss");
}

#[test]
fn test_validation_error() {
    let err = Error::Validation("Invalid camera position".to_string());
    assert_eq!(err.to_string(), "validation error: Invalid camera position");
}

#[test]
fn test_openscad_not_found() {
    let err = Error::OpenSCADNotFound("/usr/bin/openscad".to_string());
    assert!(err.to_string().contains("openscad executable not found"));
}

#[test]
fn test_config_error() {
    let err = Error::Config("Missing required config key".to_string());
    assert_eq!(err.to_string(), "config error: Missing required config key");
}

#[test]
fn test_serialization_error() {
    let err = Error::Serialization("Failed to parse JSON".to_string());
    assert_eq!(err.to_string(), "serialization error: Failed to parse JSON");
}

#[test]
fn test_filesystem_error_from_io() {
    let io_err = std::io::Error::new(std::io::ErrorKind::NotFound, "file not found");
    let err: Error = io_err.into();
    assert!(err.to_string().contains("file not found"));
}

#[test]
fn test_result_type_alias() {
    fn returns_result() -> Result<i32> {
        Ok(42)
    }
    assert_eq!(returns_result().unwrap(), 42);
}

#[test]
fn test_result_error_propagation() {
    fn returns_error() -> Result<i32> {
        Err(Error::Validation("bad input".to_string()))
    }
    match returns_error() {
        Err(Error::Validation(msg)) => assert_eq!(msg, "bad input"),
        _ => panic!("Expected validation error"),
    }
}

#[test]
fn filesystem_error_message_starts_with_its_kind() {
    let err = Error::from(std::io::Error::new(std::io::ErrorKind::Other, "disk full"));
    assert_eq!(err.to_string(), "filesystem error: disk full");
}

#[test]
fn other_and_not_found_messages() {
    assert_eq!(Error::Other("boom".to_string()).to_string(), "error: boom");
    assert_eq!(
        Error::OpenSCADNotFound("nowhere".to_string()).to_string(),
        "openscad executable not found: nowhere"
    );
}
