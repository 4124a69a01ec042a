//! The server's side of the Model Context Protocol: the tools it offers,
//! the routing of its JSON-RPC requests, the checks on the paths that tool
//! calls name, the reading of `include`/`use` lines that its dependency
//! tools perform, and the sorting of OpenSCAD's diagnostics.
pub mod actions;
pub mod dependencies;
pub mod diagnostics;
pub mod paths;
pub mod registry;
pub mod requests;
pub mod responses;
pub mod routing;

pub use dependencies::{line_dependencies, DependencyKeyword};
pub use diagnostics::classify_diagnostics;
pub use paths::{
    analysis_stl_path, choose_source, estimated_triangle_count, export_cache_dir, export_output_path,
    library_paths, perspectives, project_sources, render_cache_dir, validate_file_path, ScadSource,
    NEW_MODEL_CONTENT,
};
pub use registry::{ToolRegistry, PROTOCOL_VERSION, SERVER_NAME};
pub use routing::{
    call_decision, execution_failure, missing_parameter, route_method, CallDecision, RpcMethod,
    INTERNAL_ERROR, INVALID_PARAMS, UNKNOWN_TOOL,
};
