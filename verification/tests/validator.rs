use openscad_mcp::analysis::validator::{
    parse_error_line, parse_warning_line, validation_from_stderr, ValidationError, ValidationResult,
    ValidationWarning,
};

#[test]
fn test_validation_result_default() {
    let result = ValidationResult::default();
    assert!(result.valid);
    assert_eq!(result.error_count(), 0);
    assert_eq!(result.warning_count(), 0);
}

#[test]
fn test_validation_result_is_valid() {
    let result = ValidationResult { valid: true, errors: vec![], warnings: vec![] };
    assert!(result.is_valid());
}

#[test]
fn test_validation_result_invalid_with_errors() {
    let result = ValidationResult {
        valid: false,
        errors: vec![ValidationError {
            message: "Syntax error".to_string(),
            line: Some(5),
            column: None,
        }],
        warnings: vec![],
    };
    assert!(!result.is_valid());
    assert_eq!(result.error_count(), 1);
}

#[test]
fn test_validation_error_creation() {
    let error = ValidationError { message: "test error".to_string(), line: Some(10), column: Some(5) };
    assert_eq!(error.message, "test error");
    assert_eq!(error.line, Some(10));
}

#[test]
fn test_validation_warning_creation() {
    let warning = ValidationWarning { message: "test warning".to_string(), line: Some(15) };
    assert_eq!(warning.message, "test warning");
}

#[test]
fn test_parse_error_line_with_line_number() {
    let line = "Error at line 5: undefined variable";
    let error = parse_error_line(line);
    assert!(error.is_some());
    let error = error.unwrap();
    assert_eq!(error.line, Some(5));
}

#[test]
fn test_parse_error_line_with_column() {
    let line = "Error at line 10, column 25: syntax error";
    let error = parse_error_line(line);
    assert!(error.is_some());
    let error = error.unwrap();
    assert_eq!(error.line, Some(10));
    assert_eq!(error.column, Some(25));
}

#[test]
fn test_parse_error_line_no_numbers() {
    let line = "Generic error message";
    let error = parse_error_line(line);
    assert!(error.is_some());
    let error = error.unwrap();
    assert_eq!(error.line, None);
}

#[test]
fn test_parse_warning_line() {
    let line = "Warning at line 20: unused variable";
    let warning = parse_warning_line(line);
    assert!(warning.is_some());
    let warning = warning.unwrap();
    assert_eq!(warning.line, Some(20));
}

#[test]
fn test_validation_result_with_multiple_errors() {
    let result = ValidationResult {
        valid: false,
        errors: vec![
            ValidationError { message: "Error 1".to_string(), line: Some(1), column: None },
            ValidationError { message: "Error 2".to_string(), line: Some(5), column: Some(10) },
        ],
        warnings: vec![],
    };
    assert_eq!(result.error_count(), 2);
}

#[test]
fn test_parse_error_uppercase_line() {
    let line = "Error at Line 42: test error";
    let error = parse_error_line(line);
    assert!(error.is_some());
    assert_eq!(error.unwrap().line, Some(42));
}

#[test]
fn error_line_keeps_message_and_reads_column_after_comma() {
    let error = parse_error_line("ERROR: Parser error in file foo.scad, line 7, column 3").unwrap();
    assert_eq!(error.message, "ERROR: Parser error in file foo.scad, line 7, column 3");
    assert_eq!(error.line, Some(7));
    assert_eq!(error.column, Some(3));
}

#[test]
fn error_line_number_too_large_for_u32_is_dropped() {
    let error = parse_error_line("Error at line 99999999999: overflow").unwrap();
    assert_eq!(error.line, None);
    assert_eq!(error.column, None);
}

#[test]
fn warning_line_without_number() {
    let warning = parse_warning_line("WARNING: Ignoring unknown variable 'x'").unwrap();
    assert_eq!(warning.line, None);
    assert_eq!(warning.message, "WARNING: Ignoring unknown variable 'x'");
}

#[test]
fn stderr_is_split_into_errors_and_warnings() {
    let stderr = "ECHO: 1\nWarning: unused at line 3\nERROR: Parser error at line 9, column 2\nwarning and error together\nWARNING: only upper case\n";
    let result = validation_from_stderr(stderr);
    assert!(!result.valid);
    assert_eq!(result.error_count(), 2);
    assert_eq!(result.warning_count(), 2);
    assert_eq!(result.errors[0].line, Some(9));
    assert_eq!(result.errors[0].column, Some(2));
    assert_eq!(result.warnings[0].line, Some(3));
    assert_eq!(result.warnings[1].message, "WARNING: only upper case");
}

#[test]
fn diagnostics_ignore_letter_case() {
    let result = validation_from_stderr("Error at line 5: undefined variable
WARNING: x
");
    assert!(!result.valid);
    assert_eq!(result.error_count(), 1);
    assert_eq!(result.errors[0].message, "Error at line 5: undefined variable");
    assert_eq!(result.errors[0].line, Some(5));
    assert_eq!(result.warning_count(), 1);
    assert_eq!(result.warnings[0].message, "WARNING: x");
}

#[test]
fn clean_stderr_is_valid() {
    let result = validation_from_stderr("ECHO: \"hello\"\nRendering finished.\n");
    assert!(result.valid);
    assert_eq!(result.error_count(), 0);
    assert_eq!(result.warning_count(), 0);
}
