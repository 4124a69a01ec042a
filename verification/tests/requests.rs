use openscad_mcp::mcp::actions::{plan_call, plan_tool_call, ToolAction};
use openscad_mcp::mcp::requests::{decode_request, ToolArgs};
use openscad_mcp::mcp::responses::{
    decimal_text, error_response, initialize_result, internal_error_response, success_response,
    tools_call_response, tools_list_result,
};
use openscad_mcp::mcp::{RpcMethod, ScadSource, ToolRegistry, INTERNAL_ERROR, INVALID_PARAMS, UNKNOWN_TOOL};

fn args(pairs: &[(&str, &str)]) -> ToolArgs {
    ToolArgs { entries: pairs.iter().map(|(k, v)| (k.to_string(), v.to_string())).collect() }
}

#[test]
fn request_fields_are_read() {
    let text = r#"{"jsonrpc":"2.0","id":7,"method":"tools/call","params":{"name":"get_model","arguments":{"file":"a.scad","n":3}}}"#;
    let r = decode_request(text).unwrap();
    assert_eq!(r.method, RpcMethod::ToolsCall);
    assert_eq!(r.id, "7");
    assert_eq!(r.tool_name.as_deref(), Some("get_model"));
    assert_eq!(r.arguments.entries, vec![("file".to_string(), "a.scad".to_string())]);
}

#[test]
fn request_id_is_kept_as_json() {
    let r = decode_request(r#"{"id":"abc","method":"initialize"}"#).unwrap();
    assert_eq!(r.method, RpcMethod::Initialize);
    assert_eq!(r.id, "\"abc\"");
    let r = decode_request(r#"{"method":"tools/list"}"#).unwrap();
    assert_eq!(r.id, "null");
    assert!(r.tool_name.is_none());
    assert!(r.arguments.entries.is_empty());
}

#[test]
fn request_errors() {
    assert!(decode_request("not json").unwrap_err().starts_with("Failed to parse JSON: "));
    assert_eq!(decode_request("[1,2]").unwrap_err(), "Missing or invalid method field");
    assert_eq!(decode_request(r#"{"method":5}"#).unwrap_err(), "Missing or invalid method field");
    assert_eq!(decode_request(r#"{"method":"ping"}"#).unwrap_err(), "Unknown method: ping");
}

#[test]
fn tool_name_must_be_a_string() {
    let r = decode_request(r#"{"id":1,"method":"tools/call","params":{"name":3}}"#).unwrap();
    assert!(r.tool_name.is_none());
    let r = decode_request(r#"{"id":1,"method":"tools/call","params":"x"}"#).unwrap();
    assert!(r.tool_name.is_none());
}

#[test]
fn every_path_is_checked_before_work() {
    assert_eq!(
        plan_tool_call("create_model", &args(&[("name", "../evil.scad")])).unwrap_err(),
        "Path traversal with '..' is not allowed"
    );
    assert_eq!(
        plan_tool_call("list_models", &args(&[("directory", "/etc")])).unwrap_err(),
        "Absolute file paths are not allowed"
    );
    assert_eq!(
        plan_tool_call("compare_renders", &args(&[("left_file", "a.scad"), ("right_file", "/b.scad")])).unwrap_err(),
        "Absolute file paths are not allowed"
    );
    assert_eq!(plan_tool_call("get_model", &args(&[])).unwrap_err(), "Missing 'file' parameter");
    assert_eq!(plan_tool_call("nope", &args(&[])).unwrap_err(), "Unknown tool: nope");
}

#[test]
fn defaults_are_filled_in() {
    match plan_tool_call("create_model", &args(&[("name", "m.scad")])).unwrap() {
        ToolAction::CreateModel { name, content } => {
            assert_eq!(name, "m.scad");
            assert_eq!(content, "// New model\n");
        }
        other => panic!("unexpected {:?}", other),
    }
    match plan_tool_call("list_models", &args(&[])).unwrap() {
        ToolAction::ListModels { directory } => assert_eq!(directory, "."),
        other => panic!("unexpected {:?}", other),
    }
    match plan_tool_call("render_scad", &args(&[("content", "cube(1);")])).unwrap() {
        ToolAction::RenderScad { source: ScadSource::Content(c), quality } => {
            assert_eq!(c, "cube(1);");
            assert_eq!(quality, "normal");
        }
        other => panic!("unexpected {:?}", other),
    }
    match plan_tool_call("export_scad", &args(&[("file", "a.scad"), ("format", "stl")])).unwrap() {
        ToolAction::ExportScad { file, format } => {
            assert_eq!(file, "a.scad");
            assert_eq!(format, "stl");
        }
        other => panic!("unexpected {:?}", other),
    }
}

#[test]
fn tool_calls_are_planned_or_refused() {
    let registry = ToolRegistry::new();
    assert_eq!(
        plan_call(&registry, None, &args(&[])).unwrap_err(),
        (INVALID_PARAMS, "Missing tool name in params".to_string())
    );
    assert_eq!(
        plan_call(&registry, Some("nope"), &args(&[])).unwrap_err(),
        (UNKNOWN_TOOL, "Unknown tool: nope".to_string())
    );
    assert_eq!(
        plan_call(&registry, Some("delete_model"), &args(&[("file", "/x")])).unwrap_err(),
        (INTERNAL_ERROR, "Tool execution failed: Absolute file paths are not allowed".to_string())
    );
    assert!(matches!(plan_call(&registry, Some("clear_cache"), &args(&[])), Ok(ToolAction::ClearCache)));
}

#[test]
fn answers_are_written_with_sorted_members() {
    assert_eq!(decimal_text(-32602), "-32602");
    assert_eq!(decimal_text(0), "0");
    assert_eq!(decimal_text(i32::MIN), "-2147483648");
    assert_eq!(success_response("1", "{}"), r#"{"id":1,"jsonrpc":"2.0","result":{}}"#);
    assert_eq!(
        error_response("null", -32001, "Unknown tool: \"x\""),
        r#"{"error":{"code":-32001,"message":"Unknown tool: \"x\""},"id":null,"jsonrpc":"2.0"}"#
    );
    let ok: Result<String, (i32, String)> = Ok("{\"a\":1}".to_string());
    let text = tools_call_response("\"q\"", &ok);
    assert_eq!(text, r#"{"id":"q","jsonrpc":"2.0","result":{"output":"{\"a\":1}"}}"#);
    let v: serde_json::Value = serde_json::from_str(&text).unwrap();
    assert_eq!(v["result"]["output"], "{\"a\":1}");
}

#[test]
fn strings_are_escaped_as_json() {
    assert_eq!(
        error_response("1", -1, "q\"b\\n\n\t\u{1}\u{7f}é"),
        "{\"error\":{\"code\":-1,\"message\":\"q\\\"b\\\\n\\n\\t\\u0001\u{7f}é\"},\"id\":1,\"jsonrpc\":\"2.0\"}"
    );
}

#[test]
fn initialize_and_tools_list_answers() {
    assert_eq!(
        initialize_result("0.1.0"),
        r#"{"capabilities":{"tools":{}},"protocolVersion":"2025-11-25","serverInfo":{"name":"openscad-mcp","version":"0.1.0"}}"#
    );
    let registry = ToolRegistry::new();
    let text = tools_list_result(&registry.tools);
    let v: serde_json::Value = serde_json::from_str(&text).unwrap();
    let tools = v["tools"].as_array().unwrap();
    assert_eq!(tools.len(), 17);
    assert_eq!(tools[0]["name"], "render_scad");
    assert_eq!(tools[0]["inputSchema"]["required"][0], "file");
    assert!(text.starts_with(r#"{"tools":[{"description":"#));
    assert_eq!(
        internal_error_response("bad"),
        r#"{"error":{"code":-32603,"message":"Internal error: bad"},"jsonrpc":"2.0"}"#
    );
}
