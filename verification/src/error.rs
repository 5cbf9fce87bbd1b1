//! Error types for the library.

use vstd::prelude::*;

verus! {

/// Errors that can occur when working with ADRs.
///
/// Errors that come from reading or decoding files hold the message of the
/// underlying error.
#[derive(Debug)]
pub enum Error {
    /// The ADR directory was not found.
    AdrDirNotFound,
    /// The ADR directory already exists.
    AdrDirExists(String),
    /// An ADR was not found.
    AdrNotFound(String),
    /// Multiple ADRs matched a query.
    AmbiguousAdr {
        /// The query string that matched more than one ADR.
        query: String,
        /// Human-readable identifiers of the ADRs that matched.
        matches: Vec<String>,
    },
    /// Invalid ADR number.
    InvalidNumber(String),
    /// Invalid ADR format (parsing failed).
    InvalidFormat {
        /// Path to the ADR file that failed to parse.
        path: String,
        /// Why parsing failed.
        reason: String,
    },
    /// Missing required field in ADR.
    MissingField {
        /// Path to the ADR file missing the field.
        path: String,
        /// Name of the required field that was missing.
        field: String,
    },
    /// Invalid status value.
    InvalidStatus(String),
    /// Invalid link format.
    InvalidLink(String),
    /// Template not found.
    TemplateNotFound(String),
    /// Template rendering error.
    TemplateError(String),
    /// Configuration error.
    ConfigError(String),
    /// I/O error (its message).
    Io(String),
    /// YAML parsing error (its message).
    Yaml(String),
    /// TOML parsing error (its message).
    Toml(String),
}

/// Result type alias using the library's error type.
pub type Result<T> = core::result::Result<T, Error>;

} // verus!
