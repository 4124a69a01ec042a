use openscad_mcp::error::Error;
use openscad_mcp::server::{MCPServer, ToolDefinition};

#[test]
fn test_server_creation() {
    let server = MCPServer::new("openscad-mcp".to_string(), "0.1.0".to_string());
    let (name, version) = server.info();
    assert_eq!(name, "openscad-mcp");
    assert_eq!(version, "0.1.0");
}

#[test]
fn test_empty_tool_list() {
    let server = MCPServer::new("test".to_string(), "1.0".to_string());
    assert_eq!(server.list_tools().len(), 0);
}

#[test]
fn test_register_single_tool() {
    let mut server = MCPServer::new("test".to_string(), "1.0".to_string());
    let tool = ToolDefinition {
        name: "render_model".to_string(),
        description: "Render a model".to_string(),
        input_schema: "{}".to_string(),
    };
    let result = server.register_tool(tool);
    assert!(result.is_ok());
    assert_eq!(server.list_tools().len(), 1);
}

#[test]
fn test_register_multiple_tools() {
    let mut server = MCPServer::new("test".to_string(), "1.0".to_string());
    for i in 0..3 {
        let tool = ToolDefinition {
            name: format!("tool_{}", i),
            description: format!("Tool {}", i),
            input_schema: "{}".to_string(),
        };
        assert!(server.register_tool(tool).is_ok());
    }
    assert_eq!(server.list_tools().len(), 3);
}

#[test]
fn test_register_duplicate_tool() {
    let mut server = MCPServer::new("test".to_string(), "1.0".to_string());
    let tool = ToolDefinition {
        name: "render".to_string(),
        description: "Render".to_string(),
        input_schema: "{}".to_string(),
    };
    assert!(server.register_tool(tool.clone()).is_ok());
    assert!(server.register_tool(tool).is_err());
}

#[test]
fn test_get_tool() {
    let mut server = MCPServer::new("test".to_string(), "1.0".to_string());
    let tool = ToolDefinition {
        name: "render".to_string(),
        description: "Render model".to_string(),
        input_schema: "{}".to_string(),
    };
    server.register_tool(tool).unwrap();
    let found = server.get_tool("render");
    assert!(found.is_some());
    assert_eq!(found.unwrap().name, "render");
}

#[test]
fn test_get_nonexistent_tool() {
    let server = MCPServer::new("test".to_string(), "1.0".to_string());
    let found = server.get_tool("nonexistent");
    assert!(found.is_none());
}

#[test]
fn test_tool_definition_clone() {
    let tool = ToolDefinition {
        name: "test".to_string(),
        description: "test".to_string(),
        input_schema: "{}".to_string(),
    };
    let cloned = tool.clone();
    assert_eq!(tool.name, cloned.name);
}

#[test]
fn test_tool_definition_debug() {
    let tool = ToolDefinition {
        name: "test".to_string(),
        description: "test".to_string(),
        input_schema: "{}".to_string(),
    };
    let debug_str = format!("{:?}", tool);
    assert!(debug_str.contains("test"));
}

fn tool(name: &str, description: &str) -> ToolDefinition {
    ToolDefinition { name: name.to_string(), description: description.to_string(), input_schema: "{}".to_string() }
}

#[test]
fn duplicate_is_refused_with_config_error_and_leaves_tools() {
    let mut server = MCPServer::new("s".to_string(), "1".to_string());
    server.register_tool(tool("render", "first")).unwrap();
    match server.register_tool(tool("render", "second")) {
        Err(Error::Config(m)) => assert_eq!(m, "Tool 'render' is already registered"),
        _ => panic!("expected a configuration error"),
    }
    assert_eq!(server.list_tools().len(), 1);
    assert_eq!(server.get_tool("render").unwrap().description, "first");
}

#[test]
fn lookup_after_register_finds_the_new_tool_and_keeps_others() {
    let mut server = MCPServer::new("s".to_string(), "1".to_string());
    server.register_tool(tool("a", "A")).unwrap();
    server.register_tool(tool("b", "B")).unwrap();
    assert_eq!(server.get_tool("b").unwrap().description, "B");
    assert_eq!(server.get_tool("a").unwrap().description, "A");
    let names: Vec<String> = server.list_tools().iter().map(|t| t.name.clone()).collect();
    assert_eq!(names, vec!["a", "b"]);
}
