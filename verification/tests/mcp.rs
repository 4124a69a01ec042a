use openscad_mcp::mcp::{
    analysis_stl_path, call_decision, choose_source, classify_diagnostics,
    estimated_triangle_count, execution_failure, export_cache_dir, export_output_path, library_paths,
    line_dependencies, missing_parameter, perspectives, project_sources, render_cache_dir,
    route_method, validate_file_path, CallDecision, DependencyKeyword, RpcMethod, ScadSource,
    ToolRegistry, INTERNAL_ERROR, INVALID_PARAMS, NEW_MODEL_CONTENT, PROTOCOL_VERSION, SERVER_NAME,
    UNKNOWN_TOOL,
};

#[test]
fn test_tool_registry() {
    let registry = ToolRegistry::new();
    assert_eq!(registry.tools.len(), 17);
}

#[test]
fn test_tool_exists() {
    let registry = ToolRegistry::new();
    assert!(registry.get("render_scad").is_some());
    assert!(registry.get("export_scad").is_some());
    assert!(registry.get("analyze_model").is_some());
    assert!(registry.get("nonexistent").is_none());
}

#[test]
fn test_all_tools_have_descriptions() {
    let registry = ToolRegistry::new();
    for tool in &registry.tools {
        assert!(!tool.description.is_empty(), "Tool {} has no description", tool.name);
        assert!(tool.description.len() > 5, "Tool {} description too short", tool.name);
    }
}

#[test]
fn test_tool_schema_validation() {
    let registry = ToolRegistry::new();

    let render_tool = registry.get("render_scad").expect("render_scad not found");
    assert_eq!(render_tool.name, "render_scad");
    assert!(render_tool.description.contains("PNG"));
    let schema: serde_json::Value = serde_json::from_str(&render_tool.input_schema).unwrap();
    assert_eq!(schema["type"], "object");
    assert!(schema["properties"]["file"].is_object());
    assert!(schema["required"].is_array());
    assert!(schema["required"]
        .as_array()
        .unwrap()
        .contains(&serde_json::Value::String("file".to_string())));

    let export_tool = registry.get("export_scad").expect("export_scad not found");
    assert_eq!(export_tool.name, "export_scad");
    let export_schema: serde_json::Value = serde_json::from_str(&export_tool.input_schema).unwrap();
    assert_eq!(export_schema["type"], "object");
    assert!(export_schema["properties"]["format"]["enum"]
        .as_array()
        .unwrap()
        .contains(&serde_json::Value::String("stl".to_string())));
}

#[test]
fn every_schema_is_a_json_object_and_names_are_distinct() {
    let registry = ToolRegistry::new();
    assert_eq!(registry.len(), 17);
    let mut names: Vec<&str> = registry.tools.iter().map(|t| t.name.as_str()).collect();
    for tool in &registry.tools {
        let schema: serde_json::Value = serde_json::from_str(&tool.input_schema).unwrap();
        assert!(schema.is_object());
    }
    names.sort();
    names.dedup();
    assert_eq!(names.len(), 17);
    assert_eq!(registry.tools[0].name, "render_scad");
    assert_eq!(registry.tools[16].name, "clear_cache");
}

#[test]
fn methods_are_routed() {
    assert_eq!(route_method(Some("initialize")).unwrap(), RpcMethod::Initialize);
    assert_eq!(route_method(Some("tools/list")).unwrap(), RpcMethod::ToolsList);
    assert_eq!(route_method(Some("tools/call")).unwrap(), RpcMethod::ToolsCall);
    assert_eq!(route_method(Some("notifications/initialized")).unwrap(), RpcMethod::InitializedNotification);
    assert_eq!(route_method(Some("ping")).unwrap_err(), "Unknown method: ping");
    assert_eq!(route_method(None).unwrap_err(), "Missing or invalid method field");
}

#[test]
fn tool_calls_are_decided() {
    let registry = ToolRegistry::new();
    assert!(matches!(call_decision(&registry, Some("check_openscad")), CallDecision::Execute));
    match call_decision(&registry, Some("fake_tool")) {
        CallDecision::Reject { code, message } => {
            assert_eq!(code, UNKNOWN_TOOL);
            assert_eq!(code, -32001);
            assert_eq!(message, "Unknown tool: fake_tool");
        }
        CallDecision::Execute => panic!("unknown tool executed"),
    }
    match call_decision(&registry, None) {
        CallDecision::Reject { code, message } => {
            assert_eq!(code, INVALID_PARAMS);
            assert_eq!(code, -32602);
            assert_eq!(message, "Missing tool name in params");
        }
        CallDecision::Execute => panic!("call without a name executed"),
    }
    let (code, message) = execution_failure("boom");
    assert_eq!(code, INTERNAL_ERROR);
    assert_eq!(code, -32603);
    assert_eq!(message, "Tool execution failed: boom");
}

#[test]
fn paths_are_checked() {
    assert!(validate_file_path("model.scad").is_ok());
    assert!(validate_file_path("dir/sub/model.scad").is_ok());
    assert!(validate_file_path("a..b/c.scad").is_ok());
    assert!(validate_file_path("").is_ok());
    assert_eq!(validate_file_path("/etc/passwd").unwrap_err(), "Absolute file paths are not allowed");
    assert_eq!(validate_file_path("../x.scad").unwrap_err(), "Path traversal with '..' is not allowed");
    assert_eq!(validate_file_path("a/../b").unwrap_err(), "Path traversal with '..' is not allowed");
    assert_eq!(validate_file_path("a/..").unwrap_err(), "Path traversal with '..' is not allowed");
    assert_eq!(validate_file_path("a\0b").unwrap_err(), "Path contains invalid null bytes");
}

#[test]
fn sources_are_chosen() {
    match choose_source(Some("m.scad"), Some("cube(1);")).unwrap() {
        ScadSource::File(f) => assert_eq!(f, "m.scad"),
        ScadSource::Content(_) => panic!("file expected"),
    }
    match choose_source(None, Some("cube(1);")).unwrap() {
        ScadSource::Content(c) => assert_eq!(c, "cube(1);"),
        ScadSource::File(_) => panic!("content expected"),
    }
    assert_eq!(choose_source(None, None).unwrap_err(), "Need 'file' or 'content' parameter");
    assert_eq!(choose_source(Some("/abs.scad"), None).unwrap_err(), "Absolute file paths are not allowed");
}

#[test]
fn dependency_lines_are_read_one_per_line() {
    let content = "include <a.scad> include <b.scad>\n  use   <lib/util.scad>\n// include <c.scad>\ncube(1);\ninclude <d.scad";
    assert_eq!(line_dependencies(content, DependencyKeyword::Include), vec!["a.scad", "c.scad"]);
    assert_eq!(line_dependencies(content, DependencyKeyword::Use), vec!["lib/util.scad"]);
}

#[test]
fn target_ends_at_a_quote_too() {
    let content = "include <a\"b>\nuse <x>y>";
    assert_eq!(line_dependencies(content, DependencyKeyword::Include), vec!["a"]);
    assert_eq!(line_dependencies(content, DependencyKeyword::Use), vec!["x"]);
}

#[test]
fn quoted_targets_are_read() {
    let content = "include \"part.scad\"\nuse <lib.scad>\n";
    assert_eq!(line_dependencies(content, DependencyKeyword::Include), vec!["part.scad"]);
    assert_eq!(line_dependencies(content, DependencyKeyword::Use), vec!["lib.scad"]);
    assert_eq!(line_dependencies("use \"lib.scad\"", DependencyKeyword::Use), vec!["lib.scad"]);
    assert!(line_dependencies("include \"open", DependencyKeyword::Include).is_empty());
}

#[test]
fn diagnostics_are_classified_ignoring_case() {
    let (errors, warnings) = classify_diagnostics("ERROR: bad\nWARNING: meh\nEcho\nan Error and a warning\r\n");
    assert_eq!(errors, vec!["ERROR: bad", "an Error and a warning"]);
    assert_eq!(warnings, vec!["WARNING: meh"]);
}

#[test]
fn export_paths() {
    assert_eq!(export_output_path("/c", "models/part.scad", "stl"), "/c/part.stl");
    assert_eq!(export_output_path("/c", "part.v2.scad", "3mf"), "/c/part.v2.3mf");
    assert_eq!(export_output_path("/c", ".hidden", "stl"), "/c/.hidden.stl");
    assert_eq!(export_output_path("/c", "dir/", "stl"), "/c/dir.stl");
    assert_eq!(export_output_path("/c", "dir/.", "off"), "/c/dir.off");
    assert_eq!(export_output_path("/c", ".", "stl"), "/c/export.stl");
    assert_eq!(export_output_path("/c", "", "stl"), "/c/export.stl");
    assert_eq!(export_output_path("/c", "noext", "svg"), "/c/noext.svg");
}

#[test]
fn cache_directories_follow_the_environment() {
    assert_eq!(export_cache_dir(Some("/x"), Some("/home/u")), "/x");
    assert_eq!(export_cache_dir(None, Some("/home/u")), "/home/u/.cache/openscad-mcp");
    assert_eq!(export_cache_dir(None, None), ".cache/openscad-mcp");
    assert_eq!(render_cache_dir(Some("/home/u")), "/home/u/.cache/openscad-mcp");
    assert_eq!(render_cache_dir(None), ".cache/openscad-mcp");
}

#[test]
fn library_search_order() {
    assert_eq!(
        library_paths(Some("/home/u")),
        vec!["/home/u/.openscad/libraries", "/usr/share/openscad/libraries", "/opt/openscad/libraries"]
    );
    assert_eq!(library_paths(None), vec!["/usr/share/openscad/libraries", "/opt/openscad/libraries"]);
}

#[test]
fn analysis_helpers() {
    assert_eq!(analysis_stl_path("parts/gear.scad"), "parts/gear_analysis.stl");
    assert_eq!(analysis_stl_path("gear"), "gear_analysis.stl");
    assert_eq!(estimated_triangle_count(0), 0);
    assert_eq!(estimated_triangle_count(49), 0);
    assert_eq!(estimated_triangle_count(5000), 100);
}

#[test]
fn project_sources_are_sorted_scad_names() {
    let names = vec![
        "b.scad".to_string(),
        "notes.txt".to_string(),
        "A.scad".to_string(),
        ".scad".to_string(),
        "a.scad".to_string(),
    ];
    assert_eq!(project_sources(&names), vec![".scad", "A.scad", "a.scad", "b.scad"]);
}

#[test]
fn server_constants_and_messages() {
    assert!(PROTOCOL_VERSION.contains("2025"));
    assert_eq!(SERVER_NAME, "openscad-mcp");
    assert_eq!(NEW_MODEL_CONTENT, "// New model\n");
    assert_eq!(missing_parameter("file"), "Missing 'file' parameter");
    let views = perspectives();
    assert_eq!(views.len(), 6);
    assert_eq!(views[0], ("front", "(0, -100, 0)", "(0, 0, 0)"));
    assert_eq!(views[5].0, "bottom");
}
