//! The fatal errors of the engine. Soft failures (an edge with an empty
//! endpoint, a dangling edge after a merge) are not errors: the offending
//! element is dropped and processing continues.

use vstd::prelude::*;

verus! {

/// A fatal error: the operation aborts and nothing is written.
#[derive(Clone, Copy, Debug, PartialEq, Eq, Structural)]
pub enum GraphError {
    /// The XML document declares an encoding that is not ASCII-compatible.
    UnsupportedEncoding,
    /// The XML document cannot be tokenized.
    MalformedXml,
    /// The input bytes are not valid UTF-8 text.
    InvalidUtf8,
    /// The JSON document holds no readable query.
    MissingQuery,
    /// The mode selector names no known parser.
    UnsupportedMode,
    /// Automatic selection found no known file extension.
    UnrecognizedExtension,
}

impl GraphError {
    /// A human-readable description of the error.
    pub fn message(&self) -> (r: String)
        ensures
            r@ == match self {
                GraphError::UnsupportedEncoding => "Unsupported encoding detected"@,
                GraphError::MalformedXml => "Malformed XML input"@,
                GraphError::InvalidUtf8 => "Input is not valid UTF-8 text"@,
                GraphError::MissingQuery => "Missing threat query in JSON input"@,
                GraphError::UnsupportedMode => "Unsupported mode"@,
                GraphError::UnrecognizedExtension => "Auto could not identify"@,
            },
    {
        match self {
            GraphError::UnsupportedEncoding => "Unsupported encoding detected".to_owned(),
            GraphError::MalformedXml => "Malformed XML input".to_owned(),
            GraphError::InvalidUtf8 => "Input is not valid UTF-8 text".to_owned(),
            GraphError::MissingQuery => "Missing threat query in JSON input".to_owned(),
            GraphError::UnsupportedMode => "Unsupported mode".to_owned(),
            GraphError::UnrecognizedExtension => "Auto could not identify".to_owned(),
        }
    }
}

} // verus!
