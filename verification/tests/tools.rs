use openscad_mcp::error::Error;
use openscad_mcp::tools::{validate_render_request, RenderMetadata, RenderResponse, RenderSingleRequest};

fn request(content: Option<&str>, file: Option<&str>) -> RenderSingleRequest {
    RenderSingleRequest {
        content: content.map(|s| s.to_string()),
        file: file.map(|s| s.to_string()),
        camera_pos: None,
        camera_target: None,
        image_size: None,
        quality: None,
    }
}

#[test]
fn test_render_request_with_content() {
    let req = request(Some("cube(10);"), None);
    let result = validate_render_request(&req);
    assert!(result.is_ok());
}

#[test]
fn test_render_request_with_file() {
    let req = request(None, Some("/path/to/model.scad"));
    let result = validate_render_request(&req);
    assert!(result.is_ok());
}

#[test]
fn test_render_request_with_both_fails() {
    let req = request(Some("cube(10);"), Some("model.scad"));
    let result = validate_render_request(&req);
    assert!(result.is_err());
}

#[test]
fn test_render_request_with_neither_fails() {
    let req = request(None, None);
    let result = validate_render_request(&req);
    assert!(result.is_err());
}

#[test]
fn test_render_request_with_camera_pos() {
    let mut req = request(Some("sphere(5);"), None);
    req.camera_pos = Some("10.0,20.0,30.0".to_string());
    let result = validate_render_request(&req);
    assert!(result.is_ok());
}

#[test]
fn test_render_request_with_quality() {
    let mut req = request(Some("cube(5);"), None);
    req.quality = Some("high".to_string());
    let result = validate_render_request(&req);
    assert!(result.is_ok());
}

#[test]
fn test_render_metadata() {
    let metadata = RenderMetadata { duration_ms: 500, width: 1024, height: 768, quality: "high".to_string() };
    assert_eq!(metadata.width, 1024);
    assert_eq!(metadata.height, 768);
}

#[test]
fn test_render_request_default_quality() {
    let req = request(Some("cube(10);"), None);
    let result = validate_render_request(&req);
    assert!(result.is_ok());
}

#[test]
fn test_render_request_clone() {
    let req = request(Some("cube(10);"), None);
    let cloned = req.clone();
    assert_eq!(req.content, cloned.content);
}

#[test]
fn render_request_error_messages() {
    match validate_render_request(&request(Some("a"), Some("b"))) {
        Err(Error::Validation(m)) => assert_eq!(m, "Provide either content or file, not both"),
        _ => panic!("expected a validation error"),
    }
    match validate_render_request(&request(None, None)) {
        Err(Error::Validation(m)) => assert_eq!(m, "Provide either content or file"),
        _ => panic!("expected a validation error"),
    }
}

#[test]
fn render_response_holds_its_metadata() {
    let resp = RenderResponse {
        image_base64: "AAAA".to_string(),
        metadata: RenderMetadata { duration_ms: 1, width: 2, height: 3, quality: "draft".to_string() },
    };
    let copy = resp.clone();
    assert_eq!(copy.image_base64, "AAAA");
    assert_eq!(copy.metadata.quality, "draft");
}
