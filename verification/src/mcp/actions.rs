//! What a tool call is to do, decided from the tool's name and arguments
//! before any file is touched: the arguments each tool needs, their
//! defaults, and the check of every path that a call names.
use vstd::prelude::*;
use vstd::string::*;
use crate::server::has_tool_named;
use super::paths::{choose_source, path_rejection, validate_file_path, ScadSource, NEW_MODEL_CONTENT};
use super::registry::ToolRegistry;
use super::requests::{arg_of, ToolArgs};
use super::routing::{
    call_decision, execution_failure, missing_parameter, CallDecision, INTERNAL_ERROR,
    INVALID_PARAMS, UNKNOWN_TOOL,
};

verus! {

broadcast use vstd::string::group_string_axioms;

/// The work of a tool call, with the arguments it uses.
#[derive(Debug, Clone)]
pub enum ToolAction {
    RenderScad { source: ScadSource, quality: String },
    RenderPerspectives { file: String, quality: String },
    CompareRenders { left_file: String, right_file: String },
    ExportScad { file: String, format: String },
    ValidateScad { source: ScadSource },
    AnalyzeModel { file: String },
    CreateModel { name: String, content: String },
    GetModel { file: String },
    UpdateModel { file: String, content: String },
    ListModels { directory: String },
    DeleteModel { file: String },
    GetLibraries,
    CheckOpenscad,
    GetProjectFiles { directory: String },
    ClearCache,
    ParseDependencies { file: String },
    DetectCircular { file: String },
}

/// A source of OpenSCAD code as plain values.
pub enum SourceView {
    File(Seq<char>),
    Content(Seq<char>),
}

/// A tool action as plain values.
pub enum ActionView {
    RenderScad { source: SourceView, quality: Seq<char> },
    RenderPerspectives { file: Seq<char>, quality: Seq<char> },
    CompareRenders { left_file: Seq<char>, right_file: Seq<char> },
    ExportScad { file: Seq<char>, format: Seq<char> },
    ValidateScad { source: SourceView },
    AnalyzeModel { file: Seq<char> },
    CreateModel { name: Seq<char>, content: Seq<char> },
    GetModel { file: Seq<char> },
    UpdateModel { file: Seq<char>, content: Seq<char> },
    ListModels { directory: Seq<char> },
    DeleteModel { file: Seq<char> },
    GetLibraries,
    CheckOpenscad,
    GetProjectFiles { directory: Seq<char> },
    ClearCache,
    ParseDependencies { file: Seq<char> },
    DetectCircular { file: Seq<char> },
}

/// The view of a source.
pub open spec fn source_view(s: ScadSource) -> SourceView {
    match s {
        ScadSource::File(f) => SourceView::File(f@),
        ScadSource::Content(c) => SourceView::Content(c@),
    }
}

impl View for ToolAction {
    type V = ActionView;

    open spec fn view(&self) -> ActionView {
        match self {
            ToolAction::RenderScad { source, quality } => ActionView::RenderScad {
                source: source_view(*source),
                quality: quality@,
            },
            ToolAction::RenderPerspectives { file, quality } => ActionView::RenderPerspectives {
                file: file@,
                quality: quality@,
            },
            ToolAction::CompareRenders { left_file, right_file } => ActionView::CompareRenders {
                left_file: left_file@,
                right_file: right_file@,
            },
            ToolAction::ExportScad { file, format } => ActionView::ExportScad {
                file: file@,
                format: format@,
            },
            ToolAction::ValidateScad { source } => ActionView::ValidateScad {
                source: source_view(*source),
            },
            ToolAction::AnalyzeModel { file } => ActionView::AnalyzeModel { file: file@ },
            ToolAction::CreateModel { name, content } => ActionView::CreateModel {
                name: name@,
                content: content@,
            },
            ToolAction::GetModel { file } => ActionView::GetModel { file: file@ },
            ToolAction::UpdateModel { file, content } => ActionView::UpdateModel {
                file: file@,
                content: content@,
            },
            ToolAction::ListModels { directory } => ActionView::ListModels {
                directory: directory@,
            },
            ToolAction::DeleteModel { file } => ActionView::DeleteModel { file: file@ },
            ToolAction::GetLibraries => ActionView::GetLibraries,
            ToolAction::CheckOpenscad => ActionView::CheckOpenscad,
            ToolAction::GetProjectFiles { directory } => ActionView::GetProjectFiles {
                directory: directory@,
            },
            ToolAction::ClearCache => ActionView::ClearCache,
            ToolAction::ParseDependencies { file } => ActionView::ParseDependencies { file: file@ },
            ToolAction::DetectCircular { file } => ActionView::DetectCircular { file: file@ },
        }
    }
}

/// The paths of a source: the file, where it is one.
pub open spec fn source_paths(s: SourceView) -> Seq<Seq<char>> {
    match s {
        SourceView::File(f) => seq![f],
        SourceView::Content(_) => seq![],
    }
}

impl ActionView {
    /// The paths that the call names, which it reads, writes, lists or
    /// deletes.
    pub open spec fn paths(self) -> Seq<Seq<char>> {
        match self {
            ActionView::RenderScad { source, .. } => source_paths(source),
            ActionView::RenderPerspectives { file, .. } => seq![file],
            ActionView::CompareRenders { left_file, right_file } => seq![left_file, right_file],
            ActionView::ExportScad { file, .. } => seq![file],
            ActionView::ValidateScad { source } => source_paths(source),
            ActionView::AnalyzeModel { file } => seq![file],
            ActionView::CreateModel { name, .. } => seq![name],
            ActionView::GetModel { file } => seq![file],
            ActionView::UpdateModel { file, .. } => seq![file],
            ActionView::ListModels { directory } => seq![directory],
            ActionView::DeleteModel { file } => seq![file],
            ActionView::GetLibraries => seq![],
            ActionView::CheckOpenscad => seq![],
            ActionView::GetProjectFiles { directory } => seq![directory],
            ActionView::ClearCache => seq![],
            ActionView::ParseDependencies { file } => seq![file],
            ActionView::DetectCircular { file } => seq![file],
        }
    }
}

/// A path that a tool call may name: relative, not climbing to a parent
/// directory, without NUL characters.
pub open spec fn path_allowed(p: Seq<char>) -> bool {
    path_rejection(p) is None
}

/// The message of a call that lacks the argument `key`.
pub open spec fn missing_message(key: Seq<char>) -> Seq<char> {
    "Missing '"@ + key + "' parameter"@
}

/// The argument under `key`, or the message that it is missing.
pub open spec fn needed(a: Seq<(Seq<char>, Seq<char>)>, key: Seq<char>) -> Result<Seq<char>, Seq<char>> {
    match arg_of(a, key) {
        Some(v) => Ok(v),
        None => Err(missing_message(key)),
    }
}

/// The argument under `key`, or `default` where the call gives none.
pub open spec fn arg_or(a: Seq<(Seq<char>, Seq<char>)>, key: Seq<char>, default: Seq<char>) -> Seq<char> {
    match arg_of(a, key) {
        Some(v) => v,
        None => default,
    }
}

/// A path, or the message that refuses it.
pub open spec fn allowed(p: Seq<char>) -> Result<Seq<char>, Seq<char>> {
    match path_rejection(p) {
        Some(m) => Err(m),
        None => Ok(p),
    }
}

/// The path argument under `key`, once present and allowed.
pub open spec fn checked(a: Seq<(Seq<char>, Seq<char>)>, key: Seq<char>) -> Result<Seq<char>, Seq<char>> {
    match needed(a, key) {
        Ok(p) => allowed(p),
        Err(e) => Err(e),
    }
}

/// The directory argument (the working directory where there is none),
/// once allowed.
pub open spec fn checked_directory(a: Seq<(Seq<char>, Seq<char>)>) -> Result<Seq<char>, Seq<char>> {
    allowed(arg_or(a, "directory"@, "."@))
}

/// The source of a call that takes `file` or `content`: the file where both
/// are given, once allowed.
pub open spec fn source_plan(a: Seq<(Seq<char>, Seq<char>)>) -> Result<SourceView, Seq<char>> {
    match (arg_of(a, "file"@), arg_of(a, "content"@)) {
        (None, None) => Err("Need 'file' or 'content' parameter"@),
        (Some(f), _) => match path_rejection(f) {
            Some(m) => Err(m),
            None => Ok(SourceView::File(f)),
        },
        (None, Some(c)) => Ok(SourceView::Content(c)),
    }
}

/// What a call of the tool `name` with the string arguments `a` is to do,
/// or the message of the error that stops it before any file is touched.
pub open spec fn tool_plan(name: Seq<char>, a: Seq<(Seq<char>, Seq<char>)>) -> Result<ActionView, Seq<char>> {
    if name == "render_scad"@ {
        match source_plan(a) {
            Ok(s) => Ok(ActionView::RenderScad { source: s, quality: arg_or(a, "quality"@, "normal"@) }),
            Err(e) => Err(e),
        }
    } else if name == "render_perspectives"@ {
        match checked(a, "file"@) {
            Ok(f) => Ok(ActionView::RenderPerspectives { file: f, quality: arg_or(a, "quality"@, "normal"@) }),
            Err(e) => Err(e),
        }
    } else if name == "compare_renders"@ {
        match (needed(a, "left_file"@), needed(a, "right_file"@)) {
            (Err(e), _) => Err(e),
            (Ok(_), Err(e)) => Err(e),
            (Ok(l), Ok(r)) => match (allowed(l), allowed(r)) {
                (Err(e), _) => Err(e),
                (Ok(_), Err(e)) => Err(e),
                (Ok(_), Ok(_)) => Ok(ActionView::CompareRenders { left_file: l, right_file: r }),
            },
        }
    } else if name == "export_scad"@ {
        match checked(a, "file"@) {
            Ok(f) => match needed(a, "format"@) {
                Ok(fmt) => Ok(ActionView::ExportScad { file: f, format: fmt }),
                Err(e) => Err(e),
            },
            Err(e) => Err(e),
        }
    } else if name == "validate_scad"@ {
        match source_plan(a) {
            Ok(s) => Ok(ActionView::ValidateScad { source: s }),
            Err(e) => Err(e),
        }
    } else if name == "analyze_model"@ {
        match checked(a, "file"@) {
            Ok(f) => Ok(ActionView::AnalyzeModel { file: f }),
            Err(e) => Err(e),
        }
    } else if name == "create_model"@ {
        match checked(a, "name"@) {
            Ok(n) => Ok(ActionView::CreateModel { name: n, content: arg_or(a, "content"@, NEW_MODEL_CONTENT@) }),
            Err(e) => Err(e),
        }
    } else if name == "get_model"@ {
        match checked(a, "file"@) {
            Ok(f) => Ok(ActionView::GetModel { file: f }),
            Err(e) => Err(e),
        }
    } else if name == "update_model"@ {
        match checked(a, "file"@) {
            Ok(f) => match needed(a, "content"@) {
                Ok(c) => Ok(ActionView::UpdateModel { file: f, content: c }),
                Err(e) => Err(e),
            },
            Err(e) => Err(e),
        }
    } else if name == "list_models"@ {
        match checked_directory(a) {
            Ok(d) => Ok(ActionView::ListModels { directory: d }),
            Err(e) => Err(e),
        }
    } else if name == "delete_model"@ {
        match checked(a, "file"@) {
            Ok(f) => Ok(ActionView::DeleteModel { file: f }),
            Err(e) => Err(e),
        }
    } else if name == "get_libraries"@ {
        Ok(ActionView::GetLibraries)
    } else if name == "check_openscad"@ {
        Ok(ActionView::CheckOpenscad)
    } else if name == "get_project_files"@ {
        match checked_directory(a) {
            Ok(d) => Ok(ActionView::GetProjectFiles { directory: d }),
            Err(e) => Err(e),
        }
    } else if name == "clear_cache"@ {
        Ok(ActionView::ClearCache)
    } else if name == "parse_dependencies"@ {
        match checked(a, "file"@) {
            Ok(f) => Ok(ActionView::ParseDependencies { file: f }),
            Err(e) => Err(e),
        }
    } else if name == "detect_circular"@ {
        match checked(a, "file"@) {
            Ok(f) => Ok(ActionView::DetectCircular { file: f }),
            Err(e) => Err(e),
        }
    } else {
        Err("Unknown tool: "@ + name)
    }
}

/// The argument under `key`, or `default` where the call gives none.
pub open spec fn arg_or_given(a: Seq<(Seq<char>, Seq<char>)>, key: Seq<char>, default: Seq<char>) -> Seq<char> {
    match arg_of(a, key) {
        Some(v) => v,
        None => default,
    }
}

/// The source named by the arguments: the file where one is given,
/// otherwise the content.
pub open spec fn source_given(s: SourceView, a: Seq<(Seq<char>, Seq<char>)>) -> bool {
    match s {
        SourceView::File(f) => arg_of(a, "file"@) == Some(f),
        SourceView::Content(c) => arg_of(a, "file"@) is None && arg_of(a, "content"@) == Some(c),
    }
}

/// Law: a planned tool call does what its name says with the arguments of
/// the same names: each field of the action is the argument of that name
/// (or the tool's default where the argument may be left out), and the
/// kind of action is the tool that was named.
pub proof fn law_plan_uses_named_arguments(name: Seq<char>, a: Seq<(Seq<char>, Seq<char>)>)
    ensures
        tool_plan(name, a) matches Ok(act) ==> match act {
            ActionView::RenderScad { source, quality } => name == "render_scad"@ && source_given(source, a)
                && quality == arg_or_given(a, "quality"@, "normal"@),
            ActionView::RenderPerspectives { file, quality } => name == "render_perspectives"@
                && arg_of(a, "file"@) == Some(file) && quality == arg_or_given(a, "quality"@, "normal"@),
            ActionView::CompareRenders { left_file, right_file } => name == "compare_renders"@
                && arg_of(a, "left_file"@) == Some(left_file) && arg_of(a, "right_file"@) == Some(right_file),
            ActionView::ExportScad { file, format } => name == "export_scad"@ && arg_of(a, "file"@) == Some(file)
                && arg_of(a, "format"@) == Some(format),
            ActionView::ValidateScad { source } => name == "validate_scad"@ && source_given(source, a),
            ActionView::AnalyzeModel { file } => name == "analyze_model"@ && arg_of(a, "file"@) == Some(file),
            ActionView::CreateModel { name: n, content } => name == "create_model"@ && arg_of(a, "name"@) == Some(n)
                && content == arg_or_given(a, "content"@, NEW_MODEL_CONTENT@),
            ActionView::GetModel { file } => name == "get_model"@ && arg_of(a, "file"@) == Some(file),
            ActionView::UpdateModel { file, content } => name == "update_model"@ && arg_of(a, "file"@) == Some(file)
                && arg_of(a, "content"@) == Some(content),
            ActionView::ListModels { directory } => name == "list_models"@ && directory == arg_or_given(
                a,
                "directory"@,
                "."@,
            ),
            ActionView::DeleteModel { file } => name == "delete_model"@ && arg_of(a, "file"@) == Some(file),
            ActionView::GetLibraries => name == "get_libraries"@,
            ActionView::CheckOpenscad => name == "check_openscad"@,
            ActionView::GetProjectFiles { directory } => name == "get_project_files"@ && directory == arg_or_given(
                a,
                "directory"@,
                "."@,
            ),
            ActionView::ClearCache => name == "clear_cache"@,
            ActionView::ParseDependencies { file } => name == "parse_dependencies"@ && arg_of(a, "file"@) == Some(file),
            ActionView::DetectCircular { file } => name == "detect_circular"@ && arg_of(a, "file"@) == Some(file),
        },
{
}

/// The argument under `key`, or the message that it is missing.
fn need_arg(args: &ToolArgs, key: &str) -> (r: Result<String, String>)
    ensures
        match (r, needed(args.args(), key@)) {
            (Ok(v), Ok(w)) => v@ == w,
            (Err(e), Err(m)) => e@ == m,
            _ => false,
        },
{
    match args.get(key) {
        Some(v) => Ok(v),
        None => Err(missing_parameter(key)),
    }
}

/// The path argument under `key`, once present and allowed.
fn checked_arg(args: &ToolArgs, key: &str) -> (r: Result<String, String>)
    ensures
        match (r, checked(args.args(), key@)) {
            (Ok(v), Ok(w)) => v@ == w,
            (Err(e), Err(m)) => e@ == m,
            _ => false,
        },
{
    let p = need_arg(args, key)?;
    match validate_file_path(p.as_str()) {
        Ok(()) => Ok(p),
        Err(m) => Err(m),
    }
}

/// The argument under `key`, or `default`.
fn arg_or_default(args: &ToolArgs, key: &str, default: &str) -> (r: String)
    ensures
        r@ == arg_or(args.args(), key@, default@),
{
    match args.get(key) {
        Some(v) => v,
        None => String::from_str(default),
    }
}

/// The directory argument, once allowed.
fn checked_directory_arg(args: &ToolArgs) -> (r: Result<String, String>)
    ensures
        match (r, checked_directory(args.args())) {
            (Ok(v), Ok(w)) => v@ == w,
            (Err(e), Err(m)) => e@ == m,
            _ => false,
        },
{
    let d = arg_or_default(args, "directory", ".");
    match validate_file_path(d.as_str()) {
        Ok(()) => Ok(d),
        Err(m) => Err(m),
    }
}

/// The source of a call that takes `file` or `content`.
fn source_arg(args: &ToolArgs) -> (r: Result<ScadSource, String>)
    ensures
        match (r, source_plan(args.args())) {
            (Ok(s), Ok(w)) => source_view(s) == w,
            (Err(e), Err(m)) => e@ == m,
            _ => false,
        },
{
    let file = args.get("file");
    let content = args.get("content");
    match (&file, &content) {
        (Some(f), Some(c)) => choose_source(Some(f.as_str()), Some(c.as_str())),
        (Some(f), None) => choose_source(Some(f.as_str()), None),
        (None, Some(c)) => choose_source(None, Some(c.as_str())),
        (None, None) => choose_source(None, None),
    }
}

/// The view of a planned action, or its error message.
pub open spec fn plan_view(r: Result<ToolAction, String>) -> Result<ActionView, Seq<char>> {
    match r {
        Ok(a) => Ok(a@),
        Err(e) => Err(e@),
    }
}

/// Decides what a call of the tool `name` with the string arguments `args`
/// is to do, checking every path that the call names before any file is
/// touched.
pub fn plan_tool_call(name: &str, args: &ToolArgs) -> (r: Result<ToolAction, String>)
    ensures
        plan_view(r) == tool_plan(name@, args.args()),
        r matches Ok(a) ==> forall|i: int| 0 <= i < a@.paths().len() ==> path_allowed(#[trigger] a@.paths()[i]),
{
    proof {
        reveal_strlit("render_scad");
        reveal_strlit("render_perspectives");
        reveal_strlit("compare_renders");
        reveal_strlit("export_scad");
        reveal_strlit("validate_scad");
        reveal_strlit("analyze_model");
        reveal_strlit("create_model");
        reveal_strlit("get_model");
        reveal_strlit("update_model");
        reveal_strlit("list_models");
        reveal_strlit("delete_model");
        reveal_strlit("get_libraries");
        reveal_strlit("check_openscad");
        reveal_strlit("get_project_files");
        reveal_strlit("clear_cache");
        reveal_strlit("parse_dependencies");
        reveal_strlit("detect_circular");
    }
    let n = String::from_str(name);
    let r = if n == String::from_str("render_scad") {
        match source_arg(args) {
            Ok(source) => Ok(ToolAction::RenderScad { source, quality: arg_or_default(args, "quality", "normal") }),
            Err(e) => Err(e),
        }
    } else if n == String::from_str("render_perspectives") {
        match checked_arg(args, "file") {
            Ok(file) => Ok(ToolAction::RenderPerspectives { file, quality: arg_or_default(args, "quality", "normal") }),
            Err(e) => Err(e),
        }
    } else if n == String::from_str("compare_renders") {
        match need_arg(args, "left_file") {
            Err(e) => Err(e),
            Ok(left_file) => match need_arg(args, "right_file") {
                Err(e) => Err(e),
                Ok(right_file) => match validate_file_path(left_file.as_str()) {
                    Err(e) => Err(e),
                    Ok(()) => match validate_file_path(right_file.as_str()) {
                        Err(e) => Err(e),
                        Ok(()) => Ok(ToolAction::CompareRenders { left_file, right_file }),
                    },
                },
            },
        }
    } else if n == String::from_str("export_scad") {
        match checked_arg(args, "file") {
            Ok(file) => match need_arg(args, "format") {
                Ok(format) => Ok(ToolAction::ExportScad { file, format }),
                Err(e) => Err(e),
            },
            Err(e) => Err(e),
        }
    } else if n == String::from_str("validate_scad") {
        match source_arg(args) {
            Ok(source) => Ok(ToolAction::ValidateScad { source }),
            Err(e) => Err(e),
        }
    } else if n == String::from_str("analyze_model") {
        match checked_arg(args, "file") {
            Ok(file) => Ok(ToolAction::AnalyzeModel { file }),
            Err(e) => Err(e),
        }
    } else if n == String::from_str("create_model") {
        match checked_arg(args, "name") {
            Ok(name) => Ok(ToolAction::CreateModel { name, content: arg_or_default(args, "content", NEW_MODEL_CONTENT) }),
            Err(e) => Err(e),
        }
    } else if n == String::from_str("get_model") {
        match checked_arg(args, "file") {
            Ok(file) => Ok(ToolAction::GetModel { file }),
            Err(e) => Err(e),
        }
    } else if n == String::from_str("update_model") {
        match checked_arg(args, "file") {
            Ok(file) => match need_arg(args, "content") {
                Ok(content) => Ok(ToolAction::UpdateModel { file, content }),
                Err(e) => Err(e),
            },
            Err(e) => Err(e),
        }
    } else if n == String::from_str("list_models") {
        match checked_directory_arg(args) {
            Ok(directory) => Ok(ToolAction::ListModels { directory }),
            Err(e) => Err(e),
        }
    } else if n == String::from_str("delete_model") {
        match checked_arg(args, "file") {
            Ok(file) => Ok(ToolAction::DeleteModel { file }),
            Err(e) => Err(e),
        }
    } else if n == String::from_str("get_libraries") {
        Ok(ToolAction::GetLibraries)
    } else if n == String::from_str("check_openscad") {
        Ok(ToolAction::CheckOpenscad)
    } else if n == String::from_str("get_project_files") {
        match checked_directory_arg(args) {
            Ok(directory) => Ok(ToolAction::GetProjectFiles { directory }),
            Err(e) => Err(e),
        }
    } else if n == String::from_str("clear_cache") {
        Ok(ToolAction::ClearCache)
    } else if n == String::from_str("parse_dependencies") {
        match checked_arg(args, "file") {
            Ok(file) => Ok(ToolAction::ParseDependencies { file }),
            Err(e) => Err(e),
        }
    } else if n == String::from_str("detect_circular") {
        match checked_arg(args, "file") {
            Ok(file) => Ok(ToolAction::DetectCircular { file }),
            Err(e) => Err(e),
        }
    } else {
        Err(String::from_str("Unknown tool: ").concat(name))
    };
    r
}

/// What a `tools/call` request leads to: the action, or the code and
/// message of its error answer.
pub open spec fn call_plan(tools: Seq<crate::server::ToolDefinition>, name: Option<Seq<char>>, a: Seq<(Seq<char>, Seq<char>)>) -> Result<ActionView, (i32, Seq<char>)> {
    match name {
        None => Err((INVALID_PARAMS, "Missing tool name in params"@)),
        Some(n) => if !has_tool_named(tools, n) {
            Err((UNKNOWN_TOOL, "Unknown tool: "@ + n))
        } else {
            match tool_plan(n, a) {
                Ok(act) => Ok(act),
                Err(e) => Err((INTERNAL_ERROR, "Tool execution failed: "@ + e)),
            }
        },
    }
}

/// Decides a `tools/call` request from its tool name (`None` where it is
/// missing or not a string) and string arguments: the action to perform,
/// or the code and message of the error answer.
pub fn plan_call(registry: &ToolRegistry, name: Option<&str>, args: &ToolArgs) -> (r: Result<ToolAction, (i32, String)>)
    ensures
        match (r, call_plan(registry.tools@, match name { Some(n) => Some(n@), None => None }, args.args())) {
            (Ok(a), Ok(w)) => a@ == w,
            (Err((c, m)), Err((d, w))) => c == d && m@ == w,
            _ => false,
        },
        r matches Ok(a) ==> forall|i: int| 0 <= i < a@.paths().len() ==> path_allowed(#[trigger] a@.paths()[i]),
{
    match call_decision(registry, name) {
        CallDecision::Reject { code, message } => Err((code, message)),
        CallDecision::Execute => {
            let n = match name {
                Some(n) => n,
                None => {
                    return Err((INVALID_PARAMS, String::from_str("Missing tool name in params")));
                },
            };
            match plan_tool_call(n, args) {
                Ok(a) => Ok(a),
                Err(e) => {
                    let (code, message) = execution_failure(e.as_str());
                    Err((code, message))
                },
            }
        },
    }
}

} // verus!
