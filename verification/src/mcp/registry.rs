//! The tools that the server offers over standard input and output.
use vstd::prelude::*;
use vstd::string::*;
use crate::server::{has_tool_named, lemma_lookup, lookup, names_unique, ToolDefinition};

verus! {

broadcast use vstd::string::group_string_axioms;

/// The names of the tools that the registry offers, in order.
pub open spec fn registered_tool_names() -> Seq<Seq<char>> {
    seq![
        "render_scad"@,
        "render_perspectives"@,
        "compare_renders"@,
        "export_scad"@,
        "analyze_model"@,
        "parse_dependencies"@,
        "detect_circular"@,
        "validate_scad"@,
        "create_model"@,
        "get_model"@,
        "update_model"@,
        "list_models"@,
        "delete_model"@,
        "get_libraries"@,
        "check_openscad"@,
        "get_project_files"@,
        "clear_cache"@,
    ]
}

/// Their descriptions, in the same order.
pub open spec fn registered_tool_descriptions() -> Seq<Seq<char>> {
    seq![
        "Render an OpenSCAD file to PNG with camera parameters"@,
        "Render 8 perspectives of an OpenSCAD model"@,
        "Compare two OpenSCAD designs side-by-side"@,
        "Export OpenSCAD file to 3D format (STL, 3MF, AMF, OFF, DXF, SVG)"@,
        "Validate and analyze an OpenSCAD file"@,
        "Extract file dependencies from an OpenSCAD file"@,
        "Detect circular dependencies in OpenSCAD files"@,
        "Syntax-check OpenSCAD code without rendering"@,
        "Create a new OpenSCAD model file"@,
        "Read an OpenSCAD model file and metadata"@,
        "Update an existing OpenSCAD model file"@,
        "List all OpenSCAD model files in workspace"@,
        "Delete an OpenSCAD model file"@,
        "Discover installed OpenSCAD libraries"@,
        "Check OpenSCAD installation status and version"@,
        "List project files and their dependencies"@,
        "Clear the render cache"@,
    ]
}

/// Their input schemas as JSON text, in the same order.
pub open spec fn registered_tool_schemas() -> Seq<Seq<char>> {
    seq![
        r#"{"type":"object","properties":{"file":{"type":"string","description":"Path to .scad file"},"camera_pos":{"type":"string","description":"Camera position (x,y,z)"},"camera_target":{"type":"string","description":"Camera target (x,y,z)"},"quality":{"type":"string","enum":["draft","normal","high"]}},"required":["file"]}"#@,
        r#"{"type":"object","properties":{"file":{"type":"string","description":"Path to .scad file"},"quality":{"type":"string","enum":["draft","normal","high"]}},"required":["file"]}"#@,
        r#"{"type":"object","properties":{"left_file":{"type":"string","description":"Left model path"},"right_file":{"type":"string","description":"Right model path"},"left_name":{"type":"string","description":"Label for left model"},"right_name":{"type":"string","description":"Label for right model"}},"required":["left_file","right_file"]}"#@,
        r#"{"type":"object","properties":{"file":{"type":"string","description":"Path to .scad file"},"format":{"type":"string","enum":["stl","3mf","amf","off","dxf","svg"]}},"required":["file","format"]}"#@,
        r#"{"type":"object","properties":{"file":{"type":"string","description":"Path to .scad file"}},"required":["file"]}"#@,
        r#"{"type":"object","properties":{"file":{"type":"string","description":"Path to .scad file"}},"required":["file"]}"#@,
        r#"{"type":"object","properties":{"file":{"type":"string","description":"Path to .scad file"}},"required":["file"]}"#@,
        r#"{"type":"object","properties":{"file":{"type":"string","description":"Path to .scad file"},"content":{"type":"string","description":"SCAD code as string"}},"required":[]}"#@,
        r#"{"type":"object","properties":{"name":{"type":"string","description":"Model file name"},"content":{"type":"string","description":"Initial SCAD content"}},"required":["name"]}"#@,
        r#"{"type":"object","properties":{"file":{"type":"string","description":"Path to .scad file"}},"required":["file"]}"#@,
        r#"{"type":"object","properties":{"file":{"type":"string","description":"Path to .scad file"},"content":{"type":"string","description":"New SCAD content"}},"required":["file","content"]}"#@,
        r#"{"type":"object","properties":{"directory":{"type":"string","description":"Directory to list (default: current)"}},"required":[]}"#@,
        r#"{"type":"object","properties":{"file":{"type":"string","description":"Path to .scad file"}},"required":["file"]}"#@,
        r#"{"type":"object","properties":{},"required":[]}"#@,
        r#"{"type":"object","properties":{},"required":[]}"#@,
        r#"{"type":"object","properties":{"directory":{"type":"string","description":"Project directory (default: current)"}},"required":[]}"#@,
        r#"{"type":"object","properties":{},"required":[]}"#@,
    ]
}

/// No two registered tools share a name.
proof fn lemma_registered_names_distinct()
    ensures
        forall|i: int, j: int|
            0 <= i < registered_tool_names().len() && 0 <= j < registered_tool_names().len() && i != j
                ==> #[trigger] registered_tool_names()[i] != #[trigger] registered_tool_names()[j],
{
    reveal_strlit("render_scad");
    reveal_strlit("render_perspectives");
    reveal_strlit("compare_renders");
    reveal_strlit("export_scad");
    reveal_strlit("analyze_model");
    reveal_strlit("parse_dependencies");
    reveal_strlit("detect_circular");
    reveal_strlit("validate_scad");
    reveal_strlit("create_model");
    reveal_strlit("get_model");
    reveal_strlit("update_model");
    reveal_strlit("list_models");
    reveal_strlit("delete_model");
    reveal_strlit("get_libraries");
    reveal_strlit("check_openscad");
    reveal_strlit("get_project_files");
    reveal_strlit("clear_cache");
    let s = registered_tool_names();
    assert forall|i: int, j: int| 0 <= i < s.len() && 0 <= j < s.len() && i != j implies #[trigger] s[i] != #[trigger] s[j] by {
        assert(s[i].len() != s[j].len() || s[i][0] != s[j][0]);
    }
}

/// Every registered description has more than five characters.
proof fn lemma_registered_descriptions_informative()
    ensures
        forall|i: int| 0 <= i < registered_tool_descriptions().len() ==> #[trigger] registered_tool_descriptions()[i].len() > 5,
{
    reveal_strlit("Render an OpenSCAD file to PNG with camera parameters");
    reveal_strlit("Render 8 perspectives of an OpenSCAD model");
    reveal_strlit("Compare two OpenSCAD designs side-by-side");
    reveal_strlit("Export OpenSCAD file to 3D format (STL, 3MF, AMF, OFF, DXF, SVG)");
    reveal_strlit("Validate and analyze an OpenSCAD file");
    reveal_strlit("Extract file dependencies from an OpenSCAD file");
    reveal_strlit("Detect circular dependencies in OpenSCAD files");
    reveal_strlit("Syntax-check OpenSCAD code without rendering");
    reveal_strlit("Create a new OpenSCAD model file");
    reveal_strlit("Read an OpenSCAD model file and metadata");
    reveal_strlit("Update an existing OpenSCAD model file");
    reveal_strlit("List all OpenSCAD model files in workspace");
    reveal_strlit("Delete an OpenSCAD model file");
    reveal_strlit("Discover installed OpenSCAD libraries");
    reveal_strlit("Check OpenSCAD installation status and version");
    reveal_strlit("List project files and their dependencies");
    reveal_strlit("Clear the render cache");
}

fn tool(name: &str, description: &str, input_schema: &str) -> (t: ToolDefinition)
    ensures
        t.name@ == name@,
        t.description@ == description@,
        t.input_schema@ == input_schema@,
{
    ToolDefinition {
        name: String::from_str(name),
        description: String::from_str(description),
        input_schema: String::from_str(input_schema),
    }
}

/// Registry of the tools that the stdio server offers.
pub struct ToolRegistry {
    pub tools: Vec<ToolDefinition>,
}

impl ToolRegistry {
    /// The names of the registered tools, in order.
    pub open spec fn names(&self) -> Seq<Seq<char>> {
        self.tools@.map_values(|t: ToolDefinition| t.name@)
    }

    /// The descriptions of the registered tools, in order.
    pub open spec fn descriptions(&self) -> Seq<Seq<char>> {
        self.tools@.map_values(|t: ToolDefinition| t.description@)
    }

    /// The input schemas of the registered tools, in order.
    pub open spec fn schemas(&self) -> Seq<Seq<char>> {
        self.tools@.map_values(|t: ToolDefinition| t.input_schema@)
    }

    /// The registry with every tool of the server.
    pub fn new() -> (r: Self)
        ensures
            r.names() == registered_tool_names(),
            r.descriptions() == registered_tool_descriptions(),
            r.schemas() == registered_tool_schemas(),
            names_unique(r.tools@),
            forall|i: int| 0 <= i < r.tools@.len() ==> #[trigger] r.tools@[i].description@.len() > 5,
    {
        let mut tools: Vec<ToolDefinition> = Vec::new();
        tools.push(tool(
            "render_scad",
            "Render an OpenSCAD file to PNG with camera parameters",
            r#"{"type":"object","properties":{"file":{"type":"string","description":"Path to .scad file"},"camera_pos":{"type":"string","description":"Camera position (x,y,z)"},"camera_target":{"type":"string","description":"Camera target (x,y,z)"},"quality":{"type":"string","enum":["draft","normal","high"]}},"required":["file"]}"#,
        ));
        tools.push(tool(
            "render_perspectives",
            "Render 8 perspectives of an OpenSCAD model",
            r#"{"type":"object","properties":{"file":{"type":"string","description":"Path to .scad file"},"quality":{"type":"string","enum":["draft","normal","high"]}},"required":["file"]}"#,
        ));
        tools.push(tool(
            "compare_renders",
            "Compare two OpenSCAD designs side-by-side",
            r#"{"type":"object","properties":{"left_file":{"type":"string","description":"Left model path"},"right_file":{"type":"string","description":"Right model path"},"left_name":{"type":"string","description":"Label for left model"},"right_name":{"type":"string","description":"Label for right model"}},"required":["left_file","right_file"]}"#,
        ));
        tools.push(tool(
            "export_scad",
            "Export OpenSCAD file to 3D format (STL, 3MF, AMF, OFF, DXF, SVG)",
            r#"{"type":"object","properties":{"file":{"type":"string","description":"Path to .scad file"},"format":{"type":"string","enum":["stl","3mf","amf","off","dxf","svg"]}},"required":["file","format"]}"#,
        ));
        tools.push(tool(
            "analyze_model",
            "Validate and analyze an OpenSCAD file",
            r#"{"type":"object","properties":{"file":{"type":"string","description":"Path to .scad file"}},"required":["file"]}"#,
        ));
        tools.push(tool(
            "parse_dependencies",
            "Extract file dependencies from an OpenSCAD file",
            r#"{"type":"object","properties":{"file":{"type":"string","description":"Path to .scad file"}},"required":["file"]}"#,
        ));
        tools.push(tool(
            "detect_circular",
            "Detect circular dependencies in OpenSCAD files",
            r#"{"type":"object","properties":{"file":{"type":"string","description":"Path to .scad file"}},"required":["file"]}"#,
        ));
        tools.push(tool(
            "validate_scad",
            "Syntax-check OpenSCAD code without rendering",
            r#"{"type":"object","properties":{"file":{"type":"string","description":"Path to .scad file"},"content":{"type":"string","description":"SCAD code as string"}},"required":[]}"#,
        ));
        tools.push(tool(
            "create_model",
            "Create a new OpenSCAD model file",
            r#"{"type":"object","properties":{"name":{"type":"string","description":"Model file name"},"content":{"type":"string","description":"Initial SCAD content"}},"required":["name"]}"#,
        ));
        tools.push(tool(
            "get_model",
            "Read an OpenSCAD model file and metadata",
            r#"{"type":"object","properties":{"file":{"type":"string","description":"Path to .scad file"}},"required":["file"]}"#,
        ));
        tools.push(tool(
            "update_model",
            "Update an existing OpenSCAD model file",
            r#"{"type":"object","properties":{"file":{"type":"string","description":"Path to .scad file"},"content":{"type":"string","description":"New SCAD content"}},"required":["file","content"]}"#,
        ));
        tools.push(tool(
            "list_models",
            "List all OpenSCAD model files in workspace",
            r#"{"type":"object","properties":{"directory":{"type":"string","description":"Directory to list (default: current)"}},"required":[]}"#,
        ));
        tools.push(tool(
            "delete_model",
            "Delete an OpenSCAD model file",
            r#"{"type":"object","properties":{"file":{"type":"string","description":"Path to .scad file"}},"required":["file"]}"#,
        ));
        tools.push(tool(
            "get_libraries",
            "Discover installed OpenSCAD libraries",
            r#"{"type":"object","properties":{},"required":[]}"#,
        ));
        tools.push(tool(
            "check_openscad",
            "Check OpenSCAD installation status and version",
            r#"{"type":"object","properties":{},"required":[]}"#,
        ));
        tools.push(tool(
            "get_project_files",
            "List project files and their dependencies",
            r#"{"type":"object","properties":{"directory":{"type":"string","description":"Project directory (default: current)"}},"required":[]}"#,
        ));
        tools.push(tool(
            "clear_cache",
            "Clear the render cache",
            r#"{"type":"object","properties":{},"required":[]}"#,
        ));
        let r = ToolRegistry { tools };
        assert(r.names() =~= registered_tool_names());
        assert(r.descriptions() =~= registered_tool_descriptions());
        assert(r.schemas() =~= registered_tool_schemas());
        proof {
            lemma_registered_names_distinct();
            lemma_registered_descriptions_informative();
            assert forall|i: int, j: int|
                0 <= i < r.tools@.len() && 0 <= j < r.tools@.len() && i != j implies #[trigger] r.tools@[i].name@
                != #[trigger] r.tools@[j].name@ by {
                assert(r.names()[i] == r.tools@[i].name@);
                assert(r.names()[j] == r.tools@[j].name@);
            }
            assert forall|i: int| 0 <= i < r.tools@.len() implies #[trigger] r.tools@[i].description@.len() > 5 by {
                assert(r.descriptions()[i] == r.tools@[i].description@);
            }
        }
        r
    }

    /// The number of registered tools.
    pub fn len(&self) -> (n: usize)
        ensures
            n == self.tools@.len(),
    {
        self.tools.len()
    }

    /// The first registered tool named `name`, if any.
    pub fn get(&self, name: &str) -> (r: Option<&ToolDefinition>)
        ensures
            r is Some <==> has_tool_named(self.tools@, name@),
            r matches Some(t) ==> Some(*t) == lookup(self.tools@, name@),
    {
        let wanted = String::from_str(name);
        let n = self.tools.len();
        assert(self.tools@.skip(0) =~= self.tools@);
        for i in 0..n
            invariant
                n == self.tools.len(),
                wanted@ == name@,
                lookup(self.tools@, name@) == lookup(self.tools@.skip(i as int), name@),
                forall|j: int| 0 <= j < i ==> self.tools@[j].name@ != name@,
        {
            assert(self.tools@.skip(i as int).drop_first() =~= self.tools@.skip(i + 1));
            if self.tools[i].name == wanted {
                proof {
                    lemma_lookup(self.tools@, name@);
                }
                return Some(&self.tools[i]);
            }
        }
        proof {
            lemma_lookup(self.tools@, name@);
            if has_tool_named(self.tools@, name@) {
                let j = choose|j: int| 0 <= j < self.tools@.len() && #[trigger] self.tools@[j].name@ == name@;
            }
        }
        None
    }
}

/// The protocol version that the server answers `initialize` with.
pub const PROTOCOL_VERSION: &'static str = "2025-11-25";

/// The name under which the server introduces itself.
pub const SERVER_NAME: &'static str = "openscad-mcp";

} // verus!
