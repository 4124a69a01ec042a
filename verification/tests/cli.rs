use openscad_mcp::cli::{parse_args, Args, VERSION};

#[test]
fn test_parse_help_short() {
    let args = vec!["prog".to_string(), "-h".to_string()];
    let result = parse_args(&args).unwrap();
    assert!(result.help);
    assert!(!result.version);
}

#[test]
fn test_parse_help_long() {
    let args = vec!["prog".to_string(), "--help".to_string()];
    let result = parse_args(&args).unwrap();
    assert!(result.help);
}

#[test]
fn test_parse_version_short() {
    let args = vec!["prog".to_string(), "-v".to_string()];
    let result = parse_args(&args).unwrap();
    assert!(result.version);
    assert!(!result.help);
}

#[test]
fn test_parse_version_long() {
    let args = vec!["prog".to_string(), "--version".to_string()];
    let result = parse_args(&args).unwrap();
    assert!(result.version);
}

#[test]
fn test_parse_config_short() {
    let args = vec!["prog".to_string(), "-c".to_string(), "/path/to/config.yaml".to_string()];
    let result = parse_args(&args).unwrap();
    assert_eq!(result.config, Some("/path/to/config.yaml".to_string()));
}

#[test]
fn test_parse_config_long() {
    let args = vec!["prog".to_string(), "--config".to_string(), "/path/to/config.yaml".to_string()];
    let result = parse_args(&args).unwrap();
    assert_eq!(result.config, Some("/path/to/config.yaml".to_string()));
}

#[test]
fn test_parse_combined_args() {
    let args = vec!["prog".to_string(), "-v".to_string(), "-c".to_string(), "config.yaml".to_string()];
    let result = parse_args(&args).unwrap();
    assert!(result.version);
    assert_eq!(result.config, Some("config.yaml".to_string()));
}

#[test]
fn test_parse_config_missing_value() {
    let args = vec!["prog".to_string(), "-c".to_string()];
    let result = parse_args(&args);
    assert!(result.is_err());
    assert!(result.unwrap_err().contains("requires a value"));
}

#[test]
fn test_parse_unknown_arg() {
    let args = vec!["prog".to_string(), "-x".to_string()];
    let result = parse_args(&args);
    assert!(result.is_err());
    assert!(result.unwrap_err().contains("Unknown argument"));
}

#[test]
fn test_parse_empty_args() {
    let args = vec!["prog".to_string()];
    let result = parse_args(&args).unwrap();
    assert!(!result.help);
    assert!(!result.version);
    assert!(result.config.is_none());
}

#[test]
fn test_default_args() {
    let args = Args::default();
    assert!(!args.help);
    assert!(!args.version);
    assert!(args.config.is_none());
}

#[test]
fn test_version_const() {
    assert!(!VERSION.is_empty());
}

#[test]
fn later_config_replaces_earlier_one() {
    let args = vec![
        "prog".to_string(),
        "-c".to_string(),
        "a.yaml".to_string(),
        "--config".to_string(),
        "b.yaml".to_string(),
    ];
    let result = parse_args(&args).unwrap();
    assert_eq!(result.config, Some("b.yaml".to_string()));
}

#[test]
fn unknown_argument_error_names_it() {
    let args = vec!["prog".to_string(), "-h".to_string(), "--bogus".to_string()];
    assert_eq!(parse_args(&args).unwrap_err(), "Unknown argument: --bogus");
}

#[test]
fn program_name_alone_is_not_read() {
    let args: Vec<String> = vec![];
    let result = parse_args(&args).unwrap();
    assert!(!result.help && !result.version && result.config.is_none());
}
