use openscad_mcp::config::loader::{config_from_env_values, load_from_yaml, Config, ConfigBuilder};

#[test]
fn test_default_config() {
    let config = Config::default();
    assert!(config.openscad_path.is_none());
    assert!(config.cache_dir.is_none());
    assert!(config.cache_size_mb.is_none());
}

#[test]
fn test_config_builder() {
    let config = ConfigBuilder::new()
        .openscad_path("/usr/bin/openscad".to_string())
        .cache_dir("/tmp/cache".to_string())
        .cache_size_mb(100)
        .build();

    assert_eq!(config.openscad_path, Some("/usr/bin/openscad".to_string()));
    assert_eq!(config.cache_dir, Some("/tmp/cache".to_string()));
    assert_eq!(config.cache_size_mb, Some(100));
    assert!(config.cache_ttl_secs.is_none());
}

#[test]
fn test_config_builder_chaining() {
    let config = ConfigBuilder::new()
        .openscad_path("/usr/bin/openscad".to_string())
        .cache_size_mb(50)
        .cache_ttl_secs(3600)
        .render_timeout_secs(120)
        .log_level("debug".to_string())
        .build();

    assert_eq!(config.openscad_path, Some("/usr/bin/openscad".to_string()));
    assert_eq!(config.cache_size_mb, Some(50));
    assert_eq!(config.cache_ttl_secs, Some(3600));
    assert_eq!(config.render_timeout_secs, Some(120));
    assert_eq!(config.log_level, Some("debug".to_string()));
}

#[test]
fn test_load_from_yaml_placeholder() {
    let config = load_from_yaml("nonexistent.yaml");
    assert!(config.is_ok());
    let cfg = config.unwrap();
    assert_eq!(cfg.openscad_path, None);
}

#[test]
fn test_config_validation_cache_size() {
    let config = ConfigBuilder::new().cache_size_mb(1024).build();
    assert_eq!(config.cache_size_mb, Some(1024));
}

#[test]
fn test_config_validation_timeout() {
    let config = ConfigBuilder::new().render_timeout_secs(300).build();
    assert_eq!(config.render_timeout_secs, Some(300));
}

#[test]
fn builder_sets_model_dir_and_defaults_the_rest() {
    let config = ConfigBuilder::default().model_dir("/models".to_string()).build();
    assert_eq!(config.model_dir, Some("/models".to_string()));
    assert!(config.openscad_path.is_none());
    assert!(config.log_level.is_none());
}

#[test]
fn env_values_without_any_variable() {
    let config = config_from_env_values(None, None, None, None, None, None, None);
    assert!(config.openscad_path.is_none());
    assert!(config.cache_dir.is_none());
    assert!(config.cache_size_mb.is_none());
}

#[test]
fn env_values_with_values() {
    let config = config_from_env_values(
        Some("/custom/openscad".to_string()),
        None,
        Some("256".to_string()),
        Some("+60".to_string()),
        Some("ten".to_string()),
        Some("info".to_string()),
        Some("/models".to_string()),
    );
    assert_eq!(config.openscad_path, Some("/custom/openscad".to_string()));
    assert_eq!(config.cache_size_mb, Some(256));
    assert_eq!(config.cache_ttl_secs, Some(60));
    assert_eq!(config.render_timeout_secs, None);
    assert_eq!(config.log_level, Some("info".to_string()));
    assert_eq!(config.model_dir, Some("/models".to_string()));
}

#[test]
fn env_numbers_must_fit_and_have_no_blanks() {
    let config = config_from_env_values(
        None,
        None,
        Some("18446744073709551615".to_string()),
        Some("18446744073709551616".to_string()),
        Some(" 5".to_string()),
        None,
        None,
    );
    assert_eq!(config.cache_size_mb, Some(u64::MAX));
    assert_eq!(config.cache_ttl_secs, None);
    assert_eq!(config.render_timeout_secs, None);
}
