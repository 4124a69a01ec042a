//! The text of the server's JSON-RPC answers.  The members of each object
//! are written in sorted order, as `serde_json` writes its maps, and
//! strings are quoted by `serde_json`.
use vstd::prelude::*;
use vstd::string::*;
use serde_json::Value;
use crate::server::ToolDefinition;
use super::registry::{PROTOCOL_VERSION, SERVER_NAME};
use super::requests::{json_string_of, json_string_text};
use super::routing::INTERNAL_ERROR;

verus! {

broadcast use vstd::string::group_string_axioms;

/// The decimal digits.
pub open spec fn decimal_digits() -> Seq<char> {
    "0123456789"@
}

/// The decimal text of `n`, without leading zeros.
pub open spec fn nat_text(n: nat) -> Seq<char>
    decreases n,
{
    if n < 10 {
        seq![decimal_digits()[n as int]]
    } else {
        nat_text(n / 10).push(decimal_digits()[(n % 10) as int])
    }
}

/// The decimal text of `n`, with a `-` before a negative number.
pub open spec fn int_text(n: int) -> Seq<char> {
    if n < 0 {
        seq!['-'] + nat_text((-n) as nat)
    } else {
        nat_text(n as nat)
    }
}

fn push_decimal(out: &mut String, n: u64)
    ensures
        final(out)@ == old(out)@ + nat_text(n as nat),
    decreases n,
{
    let digits = "0123456789";
    proof {
        reveal_strlit("0123456789");
    }
    assert(digits@.len() == 10);
    if n < 10 {
        let d = n as usize;
        out.append(digits.substring_char(d, d + 1));
        assert(digits@.subrange(d as int, d + 1) =~= seq![decimal_digits()[d as int]]);
    } else {
        push_decimal(out, n / 10);
        let d = (n % 10) as usize;
        let ghost mid = out@;
        out.append(digits.substring_char(d, d + 1));
        assert(digits@.subrange(d as int, d + 1) =~= seq![decimal_digits()[d as int]]);
        assert(out@ =~= mid + seq![decimal_digits()[d as int]]);
        assert(nat_text(n as nat) =~= nat_text((n / 10) as nat).push(decimal_digits()[d as int]));
    }
}

/// The decimal text of `n`, as JSON writes an integer.
pub fn decimal_text(n: i32) -> (r: String)
    ensures
        r@ == int_text(n as int),
{
    let mut out = String::new();
    if n < 0 {
        out.append("-");
        proof {
            reveal_strlit("-");
        }
        let m: u64 = (-(n as i64)) as u64;
        push_decimal(&mut out, m);
        assert(out@ =~= seq!['-'] + nat_text(m as nat));
    } else {
        push_decimal(&mut out, n as u64);
        assert(out@ =~= nat_text(n as nat));
    }
    out
}

/// The answer to the request with the id `id` (its JSON text) whose result
/// has the JSON text `result`.
pub open spec fn success_text(id: Seq<char>, result: Seq<char>) -> Seq<char> {
    "{\"id\":"@ + id + ",\"jsonrpc\":\"2.0\",\"result\":"@ + result + "}"@
}

/// The error answer, with `code` and `message`, to the request with the id
/// `id`.
pub open spec fn error_text(id: Seq<char>, code: int, message: Seq<char>) -> Seq<char> {
    "{\"error\":{\"code\":"@ + int_text(code) + ",\"message\":"@ + json_string_text(message)
        + "},\"id\":"@ + id + ",\"jsonrpc\":\"2.0\"}"@
}

/// The result of a tool call whose output is `output`.
pub open spec fn output_text(output: Seq<char>) -> Seq<char> {
    "{\"output\":"@ + json_string_text(output) + "}"@
}

/// Writes the answer to the request with the id `id` (its JSON text) whose
/// result has the JSON text `result`.
pub fn success_response(id: &str, result: &str) -> (r: String)
    ensures
        r@ == success_text(id@, result@),
{
    let mut out = String::from_str("{\"id\":");
    out.append(id);
    out.append(",\"jsonrpc\":\"2.0\",\"result\":");
    out.append(result);
    out.append("}");
    out
}

/// Writes the error answer, with `code` and `message`, to the request with
/// the id `id` (its JSON text).
pub fn error_response(id: &str, code: i32, message: &str) -> (r: String)
    ensures
        r@ == error_text(id@, code as int, message@),
{
    let mut out = String::from_str("{\"error\":{\"code\":");
    let c = decimal_text(code);
    out.append(c.as_str());
    out.append(",\"message\":");
    let m = json_string_of(message);
    out.append(m.as_str());
    out.append("},\"id\":");
    out.append(id);
    out.append(",\"jsonrpc\":\"2.0\"}");
    out
}

/// The answer to a `tools/call` request with the id `id` (its JSON text):
/// the tool's output as the result's `output`, or the error with its code
/// and message.
pub open spec fn tools_call_text(id: Seq<char>, outcome: Result<Seq<char>, (int, Seq<char>)>) -> Seq<char> {
    match outcome {
        Ok(output) => success_text(id, output_text(output)),
        Err((code, message)) => error_text(id, code, message),
    }
}

/// Writes the answer to a `tools/call` request with the id `id` (its JSON
/// text), from what the call gave: the tool's output, or the code and
/// message of its error.
pub fn tools_call_response(id: &str, outcome: &Result<String, (i32, String)>) -> (r: String)
    ensures
        r@ == tools_call_text(
            id@,
            match outcome {
                Ok(o) => Ok(o@),
                Err((c, m)) => Err((*c as int, m@)),
            },
        ),
{
    match outcome {
        Ok(output) => {
            let mut result = String::from_str("{\"output\":");
            let quoted = json_string_of(output.as_str());
            result.append(quoted.as_str());
            result.append("}");
            success_response(id, result.as_str())
        },
        Err((code, message)) => error_response(id, *code, message.as_str()),
    }
}

/// What `serde_json` writes for the value that `text` holds, where `text`
/// is JSON: `Value::to_string` of `serde_json::from_str::<Value>(text)`.
pub uninterp spec fn json_value_text(text: Seq<char>) -> Option<Seq<char>>;

/// Trusted: calls `serde_json::from_str::<serde_json::Value>` and, where it
/// succeeds, `Value::to_string` on the value.  Claimed: the outcome is a
/// function of the text, `json_value_text`.
#[verifier::external_body]
fn reserialize_json(text: &str) -> (r: Option<String>)
    ensures
        match r {
            Some(t) => json_value_text(text@) == Some(t@),
            None => json_value_text(text@) is None,
        },
{
    serde_json::from_str::<Value>(text).ok().map(|v| v.to_string())
}

/// The JSON text of a tool's input schema as the answer writes it: the
/// schema's value rewritten by `serde_json`, or `null` where the schema is
/// no JSON.
pub open spec fn schema_text(schema: Seq<char>) -> Seq<char> {
    match json_value_text(schema) {
        Some(t) => t,
        None => "null"@,
    }
}

/// One tool of the `tools/list` answer.
pub open spec fn tool_text(t: ToolDefinition) -> Seq<char> {
    "{\"description\":"@ + json_string_text(t.description@) + ",\"inputSchema\":"@ + schema_text(
        t.input_schema@,
    ) + ",\"name\":"@ + json_string_text(t.name@) + "}"@
}

/// The tools, each as `tool_text`, separated by commas.
pub open spec fn tools_text(ts: Seq<ToolDefinition>) -> Seq<char>
    decreases ts.len(),
{
    if ts.len() == 0 {
        seq![]
    } else if ts.len() == 1 {
        tool_text(ts[0])
    } else {
        tools_text(ts.drop_last()) + ","@ + tool_text(ts.last())
    }
}

/// The result of `tools/list`: the registered tools in order.
pub open spec fn tools_list_text(ts: Seq<ToolDefinition>) -> Seq<char> {
    "{\"tools\":["@ + tools_text(ts) + "]}"@
}

/// The result of `initialize`: the capabilities, the protocol version and
/// the server's name and version.
pub open spec fn initialize_text(version: Seq<char>) -> Seq<char> {
    "{\"capabilities\":{\"tools\":{}},\"protocolVersion\":"@ + json_string_text(PROTOCOL_VERSION@)
        + ",\"serverInfo\":{\"name\":"@ + json_string_text(SERVER_NAME@) + ",\"version\":"@
        + json_string_text(version) + "}}"@
}

/// The answer to a message that could not be processed: no id, the
/// internal error code and the message `Internal error: ` and the error.
pub open spec fn internal_error_text(error: Seq<char>) -> Seq<char> {
    "{\"error\":{\"code\":"@ + int_text(INTERNAL_ERROR as int) + ",\"message\":"@
        + json_string_text("Internal error: "@ + error) + "},\"jsonrpc\":\"2.0\"}"@
}

/// Writes one tool of the `tools/list` answer.
pub fn tool_json(t: &ToolDefinition) -> (r: String)
    ensures
        r@ == tool_text(*t),
{
    let mut out = String::from_str("{\"description\":");
    let d = json_string_of(t.description.as_str());
    out.append(d.as_str());
    out.append(",\"inputSchema\":");
    match reserialize_json(t.input_schema.as_str()) {
        Some(v) => out.append(v.as_str()),
        None => out.append("null"),
    }
    out.append(",\"name\":");
    let n = json_string_of(t.name.as_str());
    out.append(n.as_str());
    out.append("}");
    out
}

/// Writes the result of `tools/list` for the tools `tools`.
pub fn tools_list_result(tools: &Vec<ToolDefinition>) -> (r: String)
    ensures
        r@ == tools_list_text(tools@),
{
    let mut body = String::new();
    for i in 0..tools.len()
        invariant
            body@ == tools_text(tools@.take(i as int)),
    {
        assert(tools@.take(i + 1).drop_last() =~= tools@.take(i as int));
        assert(tools@.take(i + 1).last() == tools@[i as int]);
        let ghost before = body@;
        if i > 0 {
            body.append(",");
        }
        let t = tool_json(&tools[i]);
        body.append(t.as_str());
        if i == 0 {
            assert(body@ =~= tools_text(tools@.take(1)));
        } else {
            assert(body@ =~= before + ","@ + tool_text(tools@[i as int]));
        }
    }
    assert(tools@.take(tools.len() as int) =~= tools@);
    let mut out = String::from_str("{\"tools\":[");
    out.append(body.as_str());
    out.append("]}");
    out
}

/// Writes the result of `initialize` for a server of version `version`.
pub fn initialize_result(version: &str) -> (r: String)
    ensures
        r@ == initialize_text(version@),
{
    let mut out = String::from_str("{\"capabilities\":{\"tools\":{}},\"protocolVersion\":");
    let p = json_string_of(PROTOCOL_VERSION);
    out.append(p.as_str());
    out.append(",\"serverInfo\":{\"name\":");
    let n = json_string_of(SERVER_NAME);
    out.append(n.as_str());
    out.append(",\"version\":");
    let v = json_string_of(version);
    out.append(v.as_str());
    out.append("}}");
    out
}

/// Writes the answer to a message that could not be processed, with the
/// error `error`.
pub fn internal_error_response(error: &str) -> (r: String)
    ensures
        r@ == internal_error_text(error@),
{
    let mut out = String::from_str("{\"error\":{\"code\":");
    let c = decimal_text(INTERNAL_ERROR);
    out.append(c.as_str());
    out.append(",\"message\":");
    let msg = String::from_str("Internal error: ").concat(error);
    let m = json_string_of(msg.as_str());
    out.append(m.as_str());
    out.append("},\"jsonrpc\":\"2.0\"}");
    out
}

} // verus!
