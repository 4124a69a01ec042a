//! The error type shared by the operations of this crate.
use vstd::prelude::*;
use vstd::string::*;

verus! {

#[verifier::external_type_specification]
#[verifier::external_body]
pub struct ExIoError(std::io::Error);

/// Unified error type for all OpenSCAD MCP operations.
#[derive(Debug)]
pub enum Error {
    /// OpenSCAD rendering failed
    Render(String),
    /// Cache operation failed
    Cache(String),
    /// Filesystem operation failed
    Filesystem(std::io::Error),
    /// Validation failed
    Validation(String),
    /// Configuration error
    Config(String),
    /// OpenSCAD executable not found
    OpenSCADNotFound(String),
    /// Serialization/Deserialization error
    Serialization(String),
    /// Generic error
    Other(String),
}

/// Result type alias for operations that may fail with an OpenSCAD error.
pub type Result<T> = std::result::Result<T, Error>;

/// The text of an I/O error, as its `Display` implementation writes it.
///
/// Trusted: calls `<std::io::Error as Display>::fmt`; nothing is claimed of
/// the text, which depends on the operating system's error messages.
#[verifier::external_body]
fn io_error_text(e: &std::io::Error) -> String {
    format!("{}", e)
}

impl Error {
    /// The words that open the message of each kind of error.
    pub open spec fn prefix(&self) -> Seq<char> {
        match self {
            Error::Render(_) => "render error: "@,
            Error::Cache(_) => "cache error: "@,
            Error::Filesystem(_) => "filesystem error: "@,
            Error::Validation(_) => "validation error: "@,
            Error::Config(_) => "config error: "@,
            Error::OpenSCADNotFound(_) => "openscad executable not found: "@,
            Error::Serialization(_) => "serialization error: "@,
            Error::Other(_) => "error: "@,
        }
    }

    /// The human-readable message: the kind's prefix followed by the detail.
    pub fn to_string(&self) -> (r: String)
        ensures
            match self {
                Error::Render(m) => r@ == self.prefix() + m@,
                Error::Cache(m) => r@ == self.prefix() + m@,
                Error::Filesystem(_) => r@.len() >= self.prefix().len() && r@.subrange(
                    0,
                    self.prefix().len() as int,
                ) == self.prefix(),
                Error::Validation(m) => r@ == self.prefix() + m@,
                Error::Config(m) => r@ == self.prefix() + m@,
                Error::OpenSCADNotFound(m) => r@ == self.prefix() + m@,
                Error::Serialization(m) => r@ == self.prefix() + m@,
                Error::Other(m) => r@ == self.prefix() + m@,
            },
    {
        match self {
            Error::Render(m) => String::from_str("render error: ").concat(m.as_str()),
            Error::Cache(m) => String::from_str("cache error: ").concat(m.as_str()),
            Error::Filesystem(e) => {
                let tail = io_error_text(e);
                let r = String::from_str("filesystem error: ").concat(tail.as_str());
                assert(r@.subrange(0, self.prefix().len() as int) =~= self.prefix());
                r
            },
            Error::Validation(m) => String::from_str("validation error: ").concat(m.as_str()),
            Error::Config(m) => String::from_str("config error: ").concat(m.as_str()),
            Error::OpenSCADNotFound(m) => String::from_str("openscad executable not found: ").concat(
                m.as_str(),
            ),
            Error::Serialization(m) => String::from_str("serialization error: ").concat(m.as_str()),
            Error::Other(m) => String::from_str("error: ").concat(m.as_str()),
        }
    }
}

impl From<std::io::Error> for Error {
    fn from(e: std::io::Error) -> (r: Error) {
        Error::Filesystem(e)
    }
}

impl vstd::std_specs::convert::FromSpecImpl<std::io::Error> for Error {
    open spec fn obeys_from_spec() -> bool {
        true
    }

    open spec fn from_spec(e: std::io::Error) -> Error {
        Error::Filesystem(e)
    }
}

} // verus!
