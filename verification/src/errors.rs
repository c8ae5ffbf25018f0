//! The error taxonomy: parse-time rejections of mapping and template syntax,
//! authentication failures, and per-mapping resolution failures.  Every
//! variant carries the plain values a caller needs to report the failure;
//! rendering a message is left to the program around the library.

use vstd::prelude::*;

verus! {

/// Malformed mapping, template or address syntax.  Always raised before any
/// network activity.
#[derive(Debug, Clone, PartialEq, Eq)]
pub enum ParseError {
    /// The mapping specification holds no `=`.
    MissingEquals,
    /// A `|`-delimited segment of the mapping is empty; the payload is the
    /// 1-based position of the empty segment.
    EmptyFilter(usize),
    /// The path-and-key part of the mapping holds no usable `/`.
    MissingSlash,
    /// The named placeholder occurs twice in one template.
    DuplicateParameter(String),
    /// The environment-variable template uses a placeholder the key template
    /// does not bind.
    UnboundParameter,
}

/// Failure to obtain a bearer token.
#[derive(Debug, Clone, PartialEq, Eq)]
pub enum AuthError {
    /// The backend rejected the credentials.
    Unauthorized,
    /// The login response lacks a string token at the expected field path.
    MalformedResponse,
    /// The login request itself failed; the payload describes the failure.
    TransportError(String),
}

/// Failure to resolve one mapping against the secret store.
#[derive(Debug, Clone, PartialEq, Eq)]
pub enum ResolutionError {
    /// No known secret storage is mounted at a prefix of the path.
    Unsupported { path: String },
    /// The response for the path lacks the expected secret object.
    NotFound { path: String, mount: String },
    /// The named field is absent from the secrets at the path.
    KeyNotFound { key: String, path: String, mount: String },
    /// The named field holds something other than a string.
    NonStringValue { key: String },
    /// A response does not have the shape the backend is documented to return.
    MalformedResponse,
}

} // verus!
