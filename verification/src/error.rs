//! Typed error surface for graph-domain operations.
use vstd::prelude::*;

use crate::text::{concat2, concat3};

verus! {

/// Typed error surface for graph-domain operations.
#[derive(Debug)]
pub enum GraphError {
    InvalidIdentifier { kind: &'static str, value: String, reason: &'static str },
    InvalidPathSegment { segment: String, reason: &'static str },
    InvalidEncoding { segment: String },
    NotFound { kind: &'static str, name: String },
    Unsupported { operation: &'static str },
    Internal { reason: &'static str },
    InvalidValue { kind: &'static str, value: String, reason: &'static str },
    Io(String),
}

/// Result type used by the graph.
pub type Result<T> = core::result::Result<T, GraphError>;

/// A `NotFound` error naming what was looked up.
pub open spec fn is_not_found(e: GraphError, kind: Seq<char>, name: Seq<char>) -> bool {
    e matches GraphError::NotFound { kind: k, name: n } && k@ == kind && n@ == name
}

/// An `InvalidValue` error for the given kind, value and reason.
pub open spec fn is_invalid_value(
    e: GraphError,
    kind: Seq<char>,
    value: Seq<char>,
    reason: Seq<char>,
) -> bool {
    e matches GraphError::InvalidValue { kind: k, value: v, reason: r } && k@ == kind && v@
        == value && r@ == reason
}

/// An `Unsupported` error for the given operation.
pub open spec fn is_unsupported(e: GraphError, operation: Seq<char>) -> bool {
    e matches GraphError::Unsupported { operation: o } && o@ == operation
}

/// The human-readable text of an error, as its `Display` renders it
/// (without the debug quoting of embedded values).
pub open spec fn message_spec(e: GraphError) -> Seq<char> {
    match e {
        GraphError::InvalidIdentifier { kind, value, reason } => "invalid "@ + kind@ + " "@
            + value@ + ": "@ + reason@,
        GraphError::InvalidPathSegment { segment, reason } => "invalid path segment "@ + segment@
            + ": "@ + reason@,
        GraphError::InvalidEncoding { segment } => "invalid percent encoding in segment "@
            + segment@,
        GraphError::NotFound { kind, name } => kind@ + " not found: "@ + name@,
        GraphError::Unsupported { operation } => "unsupported graph operation: "@ + operation@,
        GraphError::Internal { reason } => "internal graph failure: "@ + reason@,
        GraphError::InvalidValue { kind, value, reason } => "invalid "@ + kind@ + " value "@
            + value@ + ": "@ + reason@,
        GraphError::Io(message) => "I/O failed: "@ + message@,
    }
}

impl GraphError {
    /// The error rendered as text.
    pub fn message(&self) -> (r: String)
        ensures
            r@ == message_spec(*self),
    {
        match self {
            GraphError::InvalidIdentifier { kind, value, reason } => {
                let head = concat3("invalid ", kind, " ");
                let mid = concat3(head.as_str(), value.as_str(), ": ");
                concat2(mid.as_str(), reason)
            },
            GraphError::InvalidPathSegment { segment, reason } => {
                let head = concat3("invalid path segment ", segment.as_str(), ": ");
                concat2(head.as_str(), reason)
            },
            GraphError::InvalidEncoding { segment } => {
                concat2("invalid percent encoding in segment ", segment.as_str())
            },
            GraphError::NotFound { kind, name } => concat3(kind, " not found: ", name.as_str()),
            GraphError::Unsupported { operation } => {
                concat2("unsupported graph operation: ", operation)
            },
            GraphError::Internal { reason } => concat2("internal graph failure: ", reason),
            GraphError::InvalidValue { kind, value, reason } => {
                let head = concat3("invalid ", kind, " value ");
                let mid = concat3(head.as_str(), value.as_str(), ": ");
                concat2(mid.as_str(), reason)
            },
            GraphError::Io(message) => concat2("I/O failed: ", message.as_str()),
        }
    }
}

} // verus!
