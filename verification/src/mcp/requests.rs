//! The reading of JSON-RPC requests: the text of a message is parsed by
//! `serde_json`, and what the server takes from it (the method, the id, the
//! tool name and the tool's string arguments) is picked out here.
use vstd::prelude::*;
use vstd::string::*;
use serde_json::Value;
use super::routing::{method_route, route_method, RpcMethod};

verus! {

broadcast use vstd::string::group_string_axioms;

/// The kind of a JSON value.
#[derive(Debug, Clone, Copy, PartialEq, Eq, Structural)]
pub enum JsonKind {
    Null,
    Bool,
    Number,
    Text,
    Array,
    Object,
}

impl DeepView for JsonKind {
    type V = JsonKind;

    open spec fn deep_view(&self) -> JsonKind {
        *self
    }
}

/// A member of a JSON object as plain values: its key, the kind of its
/// value, and the value itself (the content of a string, the JSON text of
/// any other value).
pub type Member = (Seq<char>, JsonKind, Seq<char>);

/// What `serde_json::from_str::<serde_json::Value>` makes of `text`: the
/// message of the parse error, `None` for a value that is no object, or the
/// members of the object, in the order of its map (sorted by key).
pub uninterp spec fn json_object_members(text: Seq<char>) -> std::result::Result<Option<Seq<Member>>, Seq<char>>;

/// The lowercase hexadecimal digit of `n` (below 16).
pub open spec fn hex_digit(n: int) -> char {
    seq!['0', '1', '2', '3', '4', '5', '6', '7', '8', '9', 'a', 'b', 'c', 'd', 'e', 'f'][n]
}

/// How `serde_json` writes the character `c` inside a string: `"` and `\`
/// escaped by a backslash; backspace, tab, line feed, form feed and
/// carriage return by their short escapes; other characters below U+0020
/// as `\u00` and two lowercase hexadecimal digits; all else as it is.
pub open spec fn json_char(c: char) -> Seq<char> {
    let n = c as u32;
    if c == '"' {
        seq!['\\', '"']
    } else if c == '\\' {
        seq!['\\', '\\']
    } else if n == 8 {
        seq!['\\', 'b']
    } else if n == 9 {
        seq!['\\', 't']
    } else if n == 10 {
        seq!['\\', 'n']
    } else if n == 12 {
        seq!['\\', 'f']
    } else if n == 13 {
        seq!['\\', 'r']
    } else if n < 32 {
        seq!['\\', 'u', '0', '0', hex_digit((n / 16) as int), hex_digit((n % 16) as int)]
    } else {
        seq![c]
    }
}

/// The characters of `s`, each as `serde_json` writes it inside a string.
pub open spec fn json_escaped(s: Seq<char>) -> Seq<char>
    decreases s.len(),
{
    if s.len() == 0 {
        seq![]
    } else {
        json_escaped(s.drop_last()) + json_char(s.last())
    }
}

/// What `serde_json::to_string` writes for the string `s`: the JSON string
/// literal, in double quotes, escaped.
pub open spec fn json_string_text(s: Seq<char>) -> Seq<char> {
    seq!['"'] + json_escaped(s) + seq!['"']
}

/// The view of what `parse_json_members` returns.
pub open spec fn members_view(r: std::result::Result<Option<Vec<(String, JsonKind, String)>>, String>) -> std::result::Result<Option<Seq<Member>>, Seq<char>> {
    match r {
        Ok(Some(v)) => Ok(Some(v.deep_view())),
        Ok(None) => Ok(None),
        Err(e) => Err(e@),
    }
}

/// Trusted: calls `serde_json::from_str::<serde_json::Value>` and, where the
/// value is an object, turns each member into its key, kind and value (a
/// string's content, or `Value::to_string` of any other value).  Claimed:
/// the outcome is a function of the text, `json_object_members`.
#[verifier::external_body]
fn parse_json_members(text: &str) -> (r: std::result::Result<Option<Vec<(String, JsonKind, String)>>, String>)
    ensures
        members_view(r) == json_object_members(text@),
{
    let map = match serde_json::from_str::<Value>(text) {
        Err(e) => return Err(e.to_string()),
        Ok(Value::Object(map)) => map,
        Ok(_) => return Ok(None),
    };
    let mut out = Vec::new();
    for (key, v) in map {
        let kind = match &v { Value::Null => JsonKind::Null, Value::Bool(_) => JsonKind::Bool,
            Value::Number(_) => JsonKind::Number, Value::String(_) => JsonKind::Text,
            Value::Array(_) => JsonKind::Array, Value::Object(_) => JsonKind::Object };
        let text = match v { Value::String(s) => s, other => other.to_string() };
        out.push((key, kind, text));
    }
    Ok(Some(out))
}

/// Trusted: calls `serde_json::to_string` on the string `s`, which cannot
/// fail.  Claimed: the text is the quoted and escaped literal
/// `json_string_text(s)`, as `format_escaped_str` and its `ESCAPE` table in
/// `serde_json`'s `ser.rs` write it.
#[verifier::external_body]
pub(crate) fn json_string_of(s: &str) -> (r: String)
    ensures
        r@ == json_string_text(s@),
{
    serde_json::to_string(s).unwrap_or_default()
}

/// The first member of `ms` under `key`: the kind and value.
pub open spec fn member_of(ms: Seq<Member>, key: Seq<char>) -> Option<(JsonKind, Seq<char>)>
    decreases ms.len(),
{
    if ms.len() == 0 {
        None
    } else if ms[0].0 == key {
        Some((ms[0].1, ms[0].2))
    } else {
        member_of(ms.drop_first(), key)
    }
}

/// The string under `key`, where there is one (`None` where the member is
/// missing or holds another kind of value).
pub open spec fn text_member(ms: Seq<Member>, key: Seq<char>) -> Option<Seq<char>> {
    match member_of(ms, key) {
        Some((JsonKind::Text, t)) => Some(t),
        _ => None,
    }
}

/// The members of the object under `key`, where it holds an object.
pub open spec fn object_member(ms: Seq<Member>, key: Seq<char>) -> Option<Seq<Member>> {
    match member_of(ms, key) {
        Some((JsonKind::Object, t)) => match json_object_members(t) {
            Ok(Some(inner)) => Some(inner),
            _ => None,
        },
        _ => None,
    }
}

/// The string members of `ms`, as key and content, in order.
pub open spec fn string_members(ms: Seq<Member>) -> Seq<(Seq<char>, Seq<char>)>
    decreases ms.len(),
{
    if ms.len() == 0 {
        seq![]
    } else {
        string_members(ms.drop_last()) + if ms.last().1 == JsonKind::Text {
            seq![(ms.last().0, ms.last().2)]
        } else {
            seq![]
        }
    }
}

/// The JSON text of the request's id, echoed in its answer: `null` where
/// the message has none.
pub open spec fn id_json(ms: Seq<Member>) -> Seq<char> {
    match member_of(ms, "id"@) {
        None => "null"@,
        Some((JsonKind::Text, t)) => json_string_text(t),
        Some((_, t)) => t,
    }
}

/// The tool name in the request's parameters, where it is a string.
pub open spec fn tool_name_of(ms: Seq<Member>) -> Option<Seq<char>> {
    match object_member(ms, "params"@) {
        Some(ps) => text_member(ps, "name"@),
        None => None,
    }
}

/// The string arguments of the tool call; none where the parameters or
/// their arguments are missing or are no object.
pub open spec fn tool_args_of(ms: Seq<Member>) -> Seq<(Seq<char>, Seq<char>)> {
    match object_member(ms, "params"@) {
        Some(ps) => match object_member(ps, "arguments"@) {
            Some(a) => string_members(a),
            None => seq![],
        },
        None => seq![],
    }
}

/// What a message `text` is taken for: its method, the JSON text of its id,
/// its tool name and string arguments; or the message of the error that
/// refuses it.
pub open spec fn request_of(text: Seq<char>) -> std::result::Result<(RpcMethod, Seq<char>, Option<Seq<char>>, Seq<(Seq<char>, Seq<char>)>), Seq<char>> {
    match json_object_members(text) {
        Err(e) => Err("Failed to parse JSON: "@ + e),
        Ok(None) => match method_route(None) {
            Ok(m) => Ok((m, "null"@, None, seq![])),
            Err(e) => Err(e),
        },
        Ok(Some(ms)) => match method_route(text_member(ms, "method"@)) {
            Ok(m) => Ok((m, id_json(ms), tool_name_of(ms), tool_args_of(ms))),
            Err(e) => Err(e),
        },
    }
}

/// The string arguments of a tool call, in the order of their object.
#[derive(Debug, Clone)]
pub struct ToolArgs {
    pub entries: Vec<(String, String)>,
}

/// The first argument under `key`.
pub open spec fn arg_of(entries: Seq<(Seq<char>, Seq<char>)>, key: Seq<char>) -> Option<Seq<char>>
    decreases entries.len(),
{
    if entries.len() == 0 {
        None
    } else if entries[0].0 == key {
        Some(entries[0].1)
    } else {
        arg_of(entries.drop_first(), key)
    }
}

impl ToolArgs {
    /// The arguments as plain values.
    pub open spec fn args(&self) -> Seq<(Seq<char>, Seq<char>)> {
        self.entries.deep_view()
    }

    /// The string argument under `key`, if the call gives one.
    pub fn get(&self, key: &str) -> (r: Option<String>)
        ensures
            match r {
                Some(v) => arg_of(self.args(), key@) == Some(v@),
                None => arg_of(self.args(), key@) is None,
            },
    {
        let n = self.entries.len();
        let ghost all = self.args();
        assert(all.skip(0) =~= all);
        for i in 0..n
            invariant
                n == self.entries.len(),
                all == self.args(),
                arg_of(all, key@) == arg_of(all.skip(i as int), key@),
        {
            let ghost rest = all.skip(i as int);
            assert(rest[0] == all[i as int]);
            assert(rest.drop_first() =~= all.skip(i + 1));
            if self.entries[i].0 == String::from_str(key) {
                return Some(self.entries[i].1.clone());
            }
        }
        assert(all.skip(n as int).len() == 0);
        None
    }
}

/// A request as the server takes it.
#[derive(Debug, Clone)]
pub struct RpcRequest {
    /// The method it asks for
    pub method: RpcMethod,
    /// The JSON text of its id (`null` where it has none)
    pub id: String,
    /// The tool name of a tool call, where it is a string
    pub tool_name: Option<String>,
    /// The string arguments of a tool call
    pub arguments: ToolArgs,
}

/// The view of an optional string.
pub open spec fn opt_string_view(s: Option<String>) -> Option<Seq<char>> {
    match s {
        Some(t) => Some(t@),
        None => None,
    }
}

/// The first member under `key`.
fn find_member(ms: &Vec<(String, JsonKind, String)>, key: &str) -> (r: Option<(JsonKind, String)>)
    ensures
        match r {
            Some((k, t)) => member_of(ms.deep_view(), key@) == Some((k, t@)),
            None => member_of(ms.deep_view(), key@) is None,
        },
{
    let n = ms.len();
    let ghost all = ms.deep_view();
    assert(all.skip(0) =~= all);
    for i in 0..n
        invariant
            n == ms.len(),
            all == ms.deep_view(),
            member_of(all, key@) == member_of(all.skip(i as int), key@),
    {
        let ghost rest = all.skip(i as int);
        assert(rest[0] == all[i as int]);
        assert(rest.drop_first() =~= all.skip(i + 1));
        if ms[i].0 == String::from_str(key) {
            return Some((ms[i].1, ms[i].2.clone()));
        }
    }
    assert(all.skip(n as int).len() == 0);
    None
}

/// The string member under `key`.
fn find_text(ms: &Vec<(String, JsonKind, String)>, key: &str) -> (r: Option<String>)
    ensures
        opt_string_view(r) == text_member(ms.deep_view(), key@),
{
    match find_member(ms, key) {
        Some((JsonKind::Text, t)) => Some(t),
        _ => None,
    }
}

/// The members of the object under `key`.
fn find_object(ms: &Vec<(String, JsonKind, String)>, key: &str) -> (r: Option<Vec<(String, JsonKind, String)>>)
    ensures
        match r {
            Some(v) => object_member(ms.deep_view(), key@) == Some(v.deep_view()),
            None => object_member(ms.deep_view(), key@) is None,
        },
{
    match find_member(ms, key) {
        Some((JsonKind::Object, t)) => match parse_json_members(t.as_str()) {
            Ok(Some(inner)) => Some(inner),
            _ => None,
        },
        _ => None,
    }
}

/// The string members of `ms`.
fn collect_strings(ms: &Vec<(String, JsonKind, String)>) -> (r: Vec<(String, String)>)
    ensures
        r.deep_view() == string_members(ms.deep_view()),
{
    let ghost all = ms.deep_view();
    let mut out: Vec<(String, String)> = Vec::new();
    for i in 0..ms.len()
        invariant
            all == ms.deep_view(),
            out.deep_view() == string_members(all.take(i as int)),
    {
        assert(all.take(i + 1).drop_last() =~= all.take(i as int));
        assert(all.take(i + 1).last() == all[i as int]);
        let ghost before = out.deep_view();
        if ms[i].1 == JsonKind::Text {
            out.push((ms[i].0.clone(), ms[i].2.clone()));
            assert(out.deep_view() =~= before + seq![(all[i as int].0, all[i as int].2)]);
        } else {
            assert(out.deep_view() =~= before + Seq::<(Seq<char>, Seq<char>)>::empty());
        }
    }
    assert(all.take(ms.len() as int) =~= all);
    out
}

/// Reads a JSON-RPC message: its method, id, tool name and string
/// arguments, or the message of the error that refuses it.
pub fn decode_request(text: &str) -> (r: std::result::Result<RpcRequest, String>)
    ensures
        match request_of(text@) {
            Ok((m, id, name, args)) => r matches Ok(q) && q.method == m && q.id@ == id
                && opt_string_view(q.tool_name) == name && q.arguments.args() == args,
            Err(e) => r matches Err(x) && x@ == e,
        },
{
    let ms = match parse_json_members(text) {
        Err(e) => {
            return Err(String::from_str("Failed to parse JSON: ").concat(e.as_str()));
        },
        Ok(None) => {
            return match route_method(None) {
                Ok(m) => Ok(
                    RpcRequest {
                        method: m,
                        id: String::from_str("null"),
                        tool_name: None,
                        arguments: ToolArgs { entries: Vec::new() },
                    },
                ),
                Err(e) => Err(e),
            };
        },
        Ok(Some(ms)) => ms,
    };
    let method_text = find_text(&ms, "method");
    let routed = match &method_text {
        Some(t) => route_method(Some(t.as_str())),
        None => route_method(None),
    };
    let method = match routed {
        Ok(m) => m,
        Err(e) => {
            return Err(e);
        },
    };
    let id = match find_member(&ms, "id") {
        None => String::from_str("null"),
        Some((JsonKind::Text, t)) => json_string_of(t.as_str()),
        Some((_, t)) => t,
    };
    let (tool_name, entries) = match find_object(&ms, "params") {
        Some(ps) => {
            let name = find_text(&ps, "name");
            let entries = match find_object(&ps, "arguments") {
                Some(a) => collect_strings(&a),
                None => Vec::new(),
            };
            (name, entries)
        },
        None => (None, Vec::new()),
    };
    proof {
        reveal_strlit("null");
    }
    Ok(RpcRequest { method, id, tool_name, arguments: ToolArgs { entries } })
}

} // verus!
