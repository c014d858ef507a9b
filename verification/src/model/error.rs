//! Platform-wide error type.

use vstd::prelude::*;
use vstd::string::*;

use crate::text::{owned, parts_are_found};

verus! {

/// What an I/O failure was about, as far as callers tell failures apart.
#[derive(Debug, Clone, Copy, PartialEq, Eq, Structural)]
pub enum IoErrorKind {
    /// The peer reset the connection.
    ConnectionReset,
    /// The peer aborted the connection.
    ConnectionAborted,
    /// The read end of the pipe or socket is gone.
    BrokenPipe,
    /// The input ended before the requested number of bytes.
    UnexpectedEof,
    /// Anything else.
    Other,
}

/// An I/O failure reported by the operating system.
#[derive(Debug)]
pub struct IoError {
    /// What the failure was about.
    pub kind: IoErrorKind,
    /// Human-readable description.
    pub message: String,
}

/// Top-level error enum of the platform, coarse-grained by subsystem.
#[derive(Debug)]
pub enum LeviathanError {
    /// A node with the given ID was not found in the cluster state.
    NodeNotFound(String),
    /// A container with the given ID was not found.
    ContainerNotFound(String),
    /// The scheduler could not find a node with sufficient resources.
    NoSchedulableNode { reason: String },
    /// An I/O error from the storage engine or network layer.
    Io(IoError),
    /// A serialization or deserialization failure.
    Serialization(String),
    /// A consensus-related error (Raft log, term mismatch, etc.).
    Consensus(String),
    /// A networking error (connection refused, timeout, etc.).
    Network(String),
    /// A container runtime error (namespace setup, cgroup, exec failure).
    Runtime(String),
    /// An invalid configuration was supplied.
    InvalidConfig(String),
    /// A catch-all for unexpected internal errors.
    Internal(String),
}

impl LeviathanError {
    /// The error message.
    pub open spec fn text(&self) -> Seq<char> {
        match *self {
            LeviathanError::NodeNotFound(id) => "node not found: "@ + id@,
            LeviathanError::ContainerNotFound(id) => "container not found: "@ + id@,
            LeviathanError::NoSchedulableNode { reason } => "no schedulable node available: "@
                + reason@,
            LeviathanError::Io(e) => "I/O error: "@ + e.message@,
            LeviathanError::Serialization(s) => "serialization error: "@ + s@,
            LeviathanError::Consensus(s) => "consensus error: "@ + s@,
            LeviathanError::Network(s) => "network error: "@ + s@,
            LeviathanError::Runtime(s) => "runtime error: "@ + s@,
            LeviathanError::InvalidConfig(s) => "invalid configuration: "@ + s@,
            LeviathanError::Internal(s) => "internal error: "@ + s@,
        }
    }

    /// Render the error message.
    pub fn to_string(&self) -> (s: String)
        ensures
            s@ == self.text(),
    {
        let (prefix, detail): (&str, &str) = match self {
            LeviathanError::NodeNotFound(id) => ("node not found: ", id.as_str()),
            LeviathanError::ContainerNotFound(id) => ("container not found: ", id.as_str()),
            LeviathanError::NoSchedulableNode { reason } => (
                "no schedulable node available: ",
                reason.as_str(),
            ),
            LeviathanError::Io(e) => ("I/O error: ", e.message.as_str()),
            LeviathanError::Serialization(s) => ("serialization error: ", s.as_str()),
            LeviathanError::Consensus(s) => ("consensus error: ", s.as_str()),
            LeviathanError::Network(s) => ("network error: ", s.as_str()),
            LeviathanError::Runtime(s) => ("runtime error: ", s.as_str()),
            LeviathanError::InvalidConfig(s) => ("invalid configuration: ", s.as_str()),
            LeviathanError::Internal(s) => ("internal error: ", s.as_str()),
        };
        let mut s = owned(prefix);
        s.append(detail);
        s
    }
}

/// The error of `serde_json`.
#[verifier::external_type_specification]
#[verifier::external_body]
pub struct ExJsonError(serde_json::Error);

/// The message of a `serde_json` error, by its `Display`. Nothing is claimed of the
/// text.
#[verifier::external_body]
fn json_error_text(e: &serde_json::Error) -> String {
    e.to_string()
}

impl From<serde_json::Error> for LeviathanError {
    fn from(e: serde_json::Error) -> (r: Self)
        ensures
            r is Serialization,
    {
        LeviathanError::Serialization(json_error_text(&e))
    }
}

impl vstd::std_specs::convert::FromSpecImpl<serde_json::Error> for LeviathanError {
    open spec fn obeys_from_spec() -> bool {
        false
    }

    open spec fn from_spec(e: serde_json::Error) -> Self {
        arbitrary()
    }
}

impl From<IoError> for LeviathanError {
    fn from(e: IoError) -> (r: Self) {
        LeviathanError::Io(e)
    }
}

impl vstd::std_specs::convert::FromSpecImpl<IoError> for LeviathanError {
    open spec fn obeys_from_spec() -> bool {
        true
    }

    open spec fn from_spec(e: IoError) -> Self {
        LeviathanError::Io(e)
    }
}

/// The message of an error names the kind of failure, and ends with what it was about,
/// unchanged.
pub proof fn platform_errors_keep_their_words(w: String, io: IoError)
    ensures
        "node not found: "@.is_prefix_of(LeviathanError::NodeNotFound(w).text()),
        "container not found: "@.is_prefix_of(LeviathanError::ContainerNotFound(w).text()),
        "no schedulable node available: "@.is_prefix_of(
            (LeviathanError::NoSchedulableNode { reason: w }).text(),
        ),
        "I/O error: "@.is_prefix_of(LeviathanError::Io(io).text()),
        "serialization error: "@.is_prefix_of(LeviathanError::Serialization(w).text()),
        "consensus error: "@.is_prefix_of(LeviathanError::Consensus(w).text()),
        "network error: "@.is_prefix_of(LeviathanError::Network(w).text()),
        "runtime error: "@.is_prefix_of(LeviathanError::Runtime(w).text()),
        "invalid configuration: "@.is_prefix_of(LeviathanError::InvalidConfig(w).text()),
        "internal error: "@.is_prefix_of(LeviathanError::Internal(w).text()),
        w@.is_suffix_of(LeviathanError::NodeNotFound(w).text()),
        w@.is_suffix_of(LeviathanError::ContainerNotFound(w).text()),
        w@.is_suffix_of((LeviathanError::NoSchedulableNode { reason: w }).text()),
        io.message@.is_suffix_of(LeviathanError::Io(io).text()),
        w@.is_suffix_of(LeviathanError::Serialization(w).text()),
        w@.is_suffix_of(LeviathanError::Consensus(w).text()),
        w@.is_suffix_of(LeviathanError::Network(w).text()),
        w@.is_suffix_of(LeviathanError::Runtime(w).text()),
        w@.is_suffix_of(LeviathanError::InvalidConfig(w).text()),
        w@.is_suffix_of(LeviathanError::Internal(w).text()),
{
    parts_are_found("node not found: "@, w@, w@);
    parts_are_found("container not found: "@, w@, w@);
    parts_are_found("no schedulable node available: "@, w@, w@);
    parts_are_found("I/O error: "@, io.message@, w@);
    parts_are_found("serialization error: "@, w@, w@);
    parts_are_found("consensus error: "@, w@, w@);
    parts_are_found("network error: "@, w@, w@);
    parts_are_found("runtime error: "@, w@, w@);
    parts_are_found("invalid configuration: "@, w@, w@);
    parts_are_found("internal error: "@, w@, w@);
}

} // verus!
