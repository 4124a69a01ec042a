//! The routing of JSON-RPC requests and the answers to tool calls that
//! are refused or fail.
use vstd::prelude::*;
use vstd::string::*;
use crate::server::has_tool_named;
use super::registry::ToolRegistry;

verus! {

broadcast use vstd::string::group_string_axioms;

/// The JSON-RPC methods that the server answers.
#[derive(Debug, Clone, Copy, PartialEq, Eq, Structural)]
pub enum RpcMethod {
    Initialize,
    ToolsList,
    ToolsCall,
    InitializedNotification,
}

/// How a request with the given `method` field is routed: to a handler, or
/// refused with the message of the error.
pub open spec fn method_route(method: Option<Seq<char>>) -> Result<RpcMethod, Seq<char>> {
    match method {
        None => Err("Missing or invalid method field"@),
        Some(m) => if m == "initialize"@ {
            Ok(RpcMethod::Initialize)
        } else if m == "tools/list"@ {
            Ok(RpcMethod::ToolsList)
        } else if m == "tools/call"@ {
            Ok(RpcMethod::ToolsCall)
        } else if m == "notifications/initialized"@ {
            Ok(RpcMethod::InitializedNotification)
        } else {
            Err("Unknown method: "@ + m)
        },
    }
}

/// Routes a request by its `method` field (`None` where the field is
/// missing or not a string).
pub fn route_method(method: Option<&str>) -> (r: Result<RpcMethod, String>)
    ensures
        match (r, method_route(opt_view(method))) {
            (Ok(a), Ok(b)) => a == b,
            (Err(a), Err(b)) => a@ == b,
            _ => false,
        },
{
    match method {
        None => Err(String::from_str("Missing or invalid method field")),
        Some(m) => {
            let ms = String::from_str(m);
            if ms == String::from_str("initialize") {
                Ok(RpcMethod::Initialize)
            } else if ms == String::from_str("tools/list") {
                Ok(RpcMethod::ToolsList)
            } else if ms == String::from_str("tools/call") {
                Ok(RpcMethod::ToolsCall)
            } else if ms == String::from_str("notifications/initialized") {
                Ok(RpcMethod::InitializedNotification)
            } else {
                Err(String::from_str("Unknown method: ").concat(m))
            }
        },
    }
}

/// The view of an optional string slice.
pub open spec fn opt_view(s: Option<&str>) -> Option<Seq<char>> {
    match s {
        Some(t) => Some(t@),
        None => None,
    }
}

/// JSON-RPC error code of a request whose parameters lack the tool's name.
pub const INVALID_PARAMS: i32 = -32602;

/// JSON-RPC error code of a call of a tool that is not registered.
pub const UNKNOWN_TOOL: i32 = -32001;

/// JSON-RPC error code of a tool call that failed, or of a request that
/// could not be processed.
pub const INTERNAL_ERROR: i32 = -32603;

/// What a `tools/call` request leads to: running the tool, or an error
/// answer with its code and message.
#[derive(Debug, Clone)]
pub enum CallDecision {
    Execute,
    Reject { code: i32, message: String },
}

/// Decides a `tools/call` request from the tool name in its parameters
/// (`None` where it is missing or not a string).
pub fn call_decision(registry: &ToolRegistry, tool_name: Option<&str>) -> (r: CallDecision)
    ensures
        match tool_name {
            None => r matches CallDecision::Reject { code, message } && code == INVALID_PARAMS
                && message@ == "Missing tool name in params"@,
            Some(n) => if has_tool_named(registry.tools@, n@) {
                r is Execute
            } else {
                r matches CallDecision::Reject { code, message } && code == UNKNOWN_TOOL && message@
                    == "Unknown tool: "@ + n@
            },
        },
{
    match tool_name {
        None => CallDecision::Reject {
            code: INVALID_PARAMS,
            message: String::from_str("Missing tool name in params"),
        },
        Some(n) => match registry.get(n) {
            Some(_) => CallDecision::Execute,
            None => CallDecision::Reject {
                code: UNKNOWN_TOOL,
                message: String::from_str("Unknown tool: ").concat(n),
            },
        },
    }
}

/// The error answer to a tool call that failed with the message `error`.
pub fn execution_failure(error: &str) -> (r: (i32, String))
    ensures
        r.0 == INTERNAL_ERROR,
        r.1@ == "Tool execution failed: "@ + error@,
{
    (INTERNAL_ERROR, String::from_str("Tool execution failed: ").concat(error))
}

/// The message of a tool call that lacks the argument `key`.
pub fn missing_parameter(key: &str) -> (r: String)
    ensures
        r@ == "Missing '"@ + key@ + "' parameter"@,
{
    String::from_str("Missing '").concat(key).concat("' parameter")
}

} // verus!
