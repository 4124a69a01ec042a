//! Requests and responses of the rendering tools, and their validation.
use vstd::prelude::*;
use vstd::string::*;
use crate::error::{Error, Result};

verus! {

broadcast use vstd::string::group_string_axioms;

/// Request to render a single view.
#[derive(Debug, Clone)]
pub struct RenderSingleRequest {
    /// OpenSCAD source code as string
    pub content: Option<String>,
    /// Path to OpenSCAD file
    pub file: Option<String>,
    /// Camera position [x, y, z]
    pub camera_pos: Option<String>,
    /// Camera target [x, y, z]
    pub camera_target: Option<String>,
    /// Image size [width, height]
    pub image_size: Option<String>,
    /// Quality: draft, normal, high
    pub quality: Option<String>,
}

/// Response from render tool.
#[derive(Debug, Clone)]
pub struct RenderResponse {
    /// Base64-encoded PNG image
    pub image_base64: String,
    /// Metadata about the render
    pub metadata: RenderMetadata,
}

/// Metadata about a render operation.
#[derive(Debug, Clone)]
pub struct RenderMetadata {
    /// Rendering duration in milliseconds
    pub duration_ms: u64,
    /// Image width in pixels
    pub width: u32,
    /// Image height in pixels
    pub height: u32,
    /// Quality setting used
    pub quality: String,
}

/// Validate render request: exactly one of content and file must be given.
pub fn validate_render_request(req: &RenderSingleRequest) -> (r: Result<()>)
    ensures
        req.content is Some && req.file is Some ==> (r matches Err(Error::Validation(m)) && m@
            == "Provide either content or file, not both"@),
        req.content is None && req.file is None ==> (r matches Err(Error::Validation(m)) && m@
            == "Provide either content or file"@),
        (req.content is Some) != (req.file is Some) ==> r is Ok,
{
    match (&req.content, &req.file) {
        (Some(_), Some(_)) => Err(
            Error::Validation(String::from_str("Provide either content or file, not both")),
        ),
        (None, None) => Err(Error::Validation(String::from_str("Provide either content or file"))),
        _ => Ok(()),
    }
}

} // verus!
