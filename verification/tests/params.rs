use openscad_mcp::render::params::{camera_parts, parse_image_size, parse_quality, QualityPreset};
use openscad_mcp::error::Error;

#[test]
fn test_quality_preset_copy() {
    let q1 = QualityPreset::High;
    let q2 = q1;
    assert_eq!(q1, q2);
}

#[test]
fn test_parse_image_size_csv() {
    let result = parse_image_size("800,600");
    assert!(result.is_ok());
    let size = result.unwrap();
    assert_eq!(size, [800, 600]);
}

#[test]
fn test_parse_image_size_with_brackets() {
    let result = parse_image_size("[1024, 768]");
    assert!(result.is_ok());
    let size = result.unwrap();
    assert_eq!(size, [1024, 768]);
}

#[test]
fn test_parse_image_size_zero_width() {
    let result = parse_image_size("0,600");
    assert!(result.is_err());
}

#[test]
fn test_parse_image_size_zero_height() {
    let result = parse_image_size("800,0");
    assert!(result.is_err());
}

#[test]
fn test_parse_image_size_invalid_format() {
    let result = parse_image_size("800x600");
    assert!(result.is_err());
}

#[test]
fn test_parse_quality_draft() {
    let result = parse_quality("draft");
    assert_eq!(result.unwrap(), QualityPreset::Draft);
}

#[test]
fn test_parse_quality_normal() {
    let result = parse_quality("normal");
    assert_eq!(result.unwrap(), QualityPreset::Normal);
}

#[test]
fn test_parse_quality_high() {
    let result = parse_quality("high");
    assert_eq!(result.unwrap(), QualityPreset::High);
}

#[test]
fn test_parse_quality_case_insensitive() {
    assert_eq!(parse_quality("DRAFT").unwrap(), QualityPreset::Draft);
    assert_eq!(parse_quality("Normal").unwrap(), QualityPreset::Normal);
}

#[test]
fn test_parse_quality_invalid() {
    let result = parse_quality("ultra");
    assert!(result.is_err());
}

fn validation_message<T: std::fmt::Debug>(r: Result<T, Error>) -> String {
    match r {
        Err(Error::Validation(m)) => m,
        other => panic!("expected a validation error, got {:?}", other),
    }
}

#[test]
fn image_size_errors_name_the_problem() {
    assert_eq!(validation_message(parse_image_size("800x600")), "Image size format: width,height");
    assert_eq!(validation_message(parse_image_size("1,2,3")), "Image size must be [width, height]");
    assert_eq!(validation_message(parse_image_size("w,600")), "Invalid image width");
    assert_eq!(validation_message(parse_image_size("800,-1")), "Invalid image height");
    assert_eq!(validation_message(parse_image_size("0,0")), "Image dimensions must be positive");
    assert_eq!(validation_message(parse_image_size("4294967296,1")), "Invalid image width");
}

#[test]
fn image_size_accepts_braces_and_blanks() {
    assert_eq!(parse_image_size("  {640 ,\t480}  ").unwrap(), [640, 480]);
    assert_eq!(parse_image_size("[[+7,8]]").unwrap(), [7, 8]);
}

#[test]
fn quality_error_message() {
    assert_eq!(validation_message(parse_quality("ultra")), "Quality must be: draft, normal, or high");
    assert_eq!(parse_quality("HiGh").unwrap(), QualityPreset::High);
}

#[test]
fn camera_parts_are_trimmed() {
    let parts = camera_parts("[10.0, 20.0 ,30.0]").unwrap();
    assert_eq!(parts, ["10.0".to_string(), "20.0".to_string(), "30.0".to_string()]);
    let parts = camera_parts("x,y,z").unwrap();
    assert_eq!(parts, ["x".to_string(), "y".to_string(), "z".to_string()]);
}

#[test]
fn camera_parts_accept_braced_labels() {
    let parts = camera_parts("{x: 1, y: 2, z: 3}").unwrap();
    assert_eq!(parts, ["1".to_string(), "2".to_string(), "3".to_string()]);
    let parts = camera_parts(" { x:-1.5 ,y: 0,z:  7 } ").unwrap();
    assert_eq!(parts, ["-1.5".to_string(), "0".to_string(), "7".to_string()]);
}

#[test]
fn labels_and_braces_count_only_in_the_braced_form() {
    let parts = camera_parts("x:1,y:2,z:3").unwrap();
    assert_eq!(parts, ["x:1".to_string(), "y:2".to_string(), "z:3".to_string()]);
    let parts = camera_parts("{1,2,3}").unwrap();
    assert_eq!(parts, ["{1".to_string(), "2".to_string(), "3}".to_string()]);
    let parts = camera_parts("{x: 1, 2, z: 3}").unwrap();
    assert_eq!(parts, ["{x: 1".to_string(), "2".to_string(), "z: 3}".to_string()]);
    assert_eq!(validation_message(camera_parts("{x: 1, y: 2}")), "Camera position must have 3 values");
}

#[test]
fn camera_parts_need_three_values() {
    assert_eq!(validation_message(camera_parts("10.0,20.0")), "Camera position must have 3 values");
    assert_eq!(validation_message(camera_parts("1,2,3,4")), "Camera position must have 3 values");
    assert_eq!(validation_message(camera_parts("100")), "Camera position format: x,y,z");
}

#[test]
fn test_parse_variables_json() {
    let json = r#"{"thickness": "2.5", "width": "10"}"#;
    let result = openscad_mcp::render::params::parse_variables(json);
    assert!(result.is_ok());
    let vars = result.unwrap();
    assert_eq!(vars.get("thickness"), Some(&"2.5".to_string()));
}

#[test]
fn test_parse_variables_empty() {
    let result = openscad_mcp::render::params::parse_variables("{}");
    assert!(result.is_ok());
    assert_eq!(result.unwrap().len(), 0);
}

#[test]
fn test_parse_variables_invalid_json() {
    let result = openscad_mcp::render::params::parse_variables("{invalid}");
    assert!(result.is_err());
}

#[test]
fn variables_need_string_values() {
    match openscad_mcp::render::params::parse_variables(r#"{"n": 3}"#) {
        Err(Error::Serialization(m)) => assert!(m.starts_with("Failed to parse variables: ")),
        _ => panic!("expected a serialization error"),
    }
}

#[test]
fn variables_from_reports_the_reader_message() {
    match openscad_mcp::render::params::variables_from(Err("bad token".to_string())) {
        Err(Error::Serialization(m)) => assert_eq!(m, "Failed to parse variables: bad token"),
        _ => panic!("expected a serialization error"),
    }
    let mut m = std::collections::HashMap::new();
    m.insert("a".to_string(), "1".to_string());
    assert_eq!(openscad_mcp::render::params::variables_from(Ok(m.clone())).unwrap(), m);
}
