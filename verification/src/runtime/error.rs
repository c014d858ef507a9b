//! Container runtime error type.

use vstd::prelude::*;
use vstd::string::*;

use crate::model::error::{IoError, LeviathanError};
use crate::text::{owned, parts_are_found};

verus! {

/// Failures of the container runtime, by subsystem.
#[derive(Debug)]
pub enum RuntimeError {
    /// Failed to create or enter a Linux namespace.
    NamespaceError {
        /// The operation that failed (e.g., "unshare").
        operation: String,
        /// Human-readable reason.
        reason: String,
    },
    /// Failed to configure cgroups v2.
    CgroupError {
        /// The cgroup controller that failed (e.g., "cpu", "memory", "pids").
        controller: String,
        /// Human-readable reason.
        reason: String,
    },
    /// Failed to install a seccomp-BPF filter.
    SeccompError(String),
    /// Failed during container filesystem setup.
    FilesystemError {
        /// The filesystem operation that failed (e.g., "pivot_root", "mount").
        operation: String,
        /// Human-readable reason.
        reason: String,
    },
    /// Failed during container network setup.
    NetworkError {
        /// The network operation that failed (e.g., "veth_create").
        operation: String,
        /// Human-readable reason.
        reason: String,
    },
    /// OCI spec validation or extraction failure.
    OciError(String),
    /// An underlying I/O error.
    Io(IoError),
    /// The operation is not supported on this platform.
    UnsupportedPlatform(String),
}

impl RuntimeError {
    /// The error message.
    pub open spec fn text(&self) -> Seq<char> {
        match *self {
            RuntimeError::NamespaceError { operation, reason } => "namespace error: "@ + operation@
                + " failed: "@ + reason@,
            RuntimeError::CgroupError { controller, reason } => "cgroup error: "@ + controller@
                + ": "@ + reason@,
            RuntimeError::SeccompError(s) => "seccomp error: "@ + s@,
            RuntimeError::FilesystemError { operation, reason } => "filesystem error: "@
                + operation@ + ": "@ + reason@,
            RuntimeError::NetworkError { operation, reason } => "network error: "@ + operation@
                + ": "@ + reason@,
            RuntimeError::OciError(s) => "OCI error: "@ + s@,
            RuntimeError::Io(e) => "I/O error: "@ + e.message@,
            RuntimeError::UnsupportedPlatform(s) => "unsupported platform: "@ + s@,
        }
    }

    /// Render the error message.
    pub fn to_string(&self) -> (s: String)
        ensures
            s@ == self.text(),
    {
        match self {
            RuntimeError::NamespaceError { operation, reason } => {
                let mut s = owned("namespace error: ");
                s.append(operation.as_str());
                s.append(" failed: ");
                s.append(reason.as_str());
                s
            },
            RuntimeError::CgroupError { controller, reason } => {
                let mut s = owned("cgroup error: ");
                s.append(controller.as_str());
                s.append(": ");
                s.append(reason.as_str());
                s
            },
            RuntimeError::SeccompError(detail) => {
                let mut s = owned("seccomp error: ");
                s.append(detail.as_str());
                s
            },
            RuntimeError::FilesystemError { operation, reason } => {
                let mut s = owned("filesystem error: ");
                s.append(operation.as_str());
                s.append(": ");
                s.append(reason.as_str());
                s
            },
            RuntimeError::NetworkError { operation, reason } => {
                let mut s = owned("network error: ");
                s.append(operation.as_str());
                s.append(": ");
                s.append(reason.as_str());
                s
            },
            RuntimeError::OciError(detail) => {
                let mut s = owned("OCI error: ");
                s.append(detail.as_str());
                s
            },
            RuntimeError::Io(e) => {
                let mut s = owned("I/O error: ");
                s.append(e.message.as_str());
                s
            },
            RuntimeError::UnsupportedPlatform(detail) => {
                let mut s = owned("unsupported platform: ");
                s.append(detail.as_str());
                s
            },
        }
    }
}

impl From<RuntimeError> for LeviathanError {
    fn from(e: RuntimeError) -> (r: Self)
        ensures
            r matches LeviathanError::Runtime(s) && s@ == e.text(),
    {
        LeviathanError::Runtime(e.to_string())
    }
}

impl vstd::std_specs::convert::FromSpecImpl<RuntimeError> for LeviathanError {
    open spec fn obeys_from_spec() -> bool {
        false
    }

    open spec fn from_spec(e: RuntimeError) -> Self {
        arbitrary()
    }
}

impl From<IoError> for RuntimeError {
    fn from(e: IoError) -> (r: Self) {
        RuntimeError::Io(e)
    }
}

impl vstd::std_specs::convert::FromSpecImpl<IoError> for RuntimeError {
    open spec fn obeys_from_spec() -> bool {
        true
    }

    open spec fn from_spec(e: IoError) -> Self {
        RuntimeError::Io(e)
    }
}

/// The message of an error gives the operation or controller and then the reason.
pub proof fn runtime_errors_keep_their_details(op: String, why: String)
    ensures
        (op@ + (" failed: "@ + why@)).is_suffix_of(
            (RuntimeError::NamespaceError { operation: op, reason: why }).text(),
        ),
        (op@ + (": "@ + why@)).is_suffix_of(
            (RuntimeError::CgroupError { controller: op, reason: why }).text(),
        ),
        (op@ + (": "@ + why@)).is_suffix_of(
            (RuntimeError::FilesystemError { operation: op, reason: why }).text(),
        ),
        (op@ + (": "@ + why@)).is_suffix_of(
            (RuntimeError::NetworkError { operation: op, reason: why }).text(),
        ),
        why@.is_suffix_of(RuntimeError::SeccompError(why).text()),
        why@.is_suffix_of(RuntimeError::OciError(why).text()),
        why@.is_suffix_of(RuntimeError::UnsupportedPlatform(why).text()),
{
    let failed = op@ + (" failed: "@ + why@);
    let both = op@ + (": "@ + why@);
    parts_are_found("namespace error: "@, failed, why@);
    parts_are_found("cgroup error: "@, both, why@);
    parts_are_found("filesystem error: "@, both, why@);
    parts_are_found("network error: "@, both, why@);
    assert("namespace error: "@ + op@ + " failed: "@ + why@ =~= "namespace error: "@ + failed);
    assert("cgroup error: "@ + op@ + ": "@ + why@ =~= "cgroup error: "@ + both);
    assert("filesystem error: "@ + op@ + ": "@ + why@ =~= "filesystem error: "@ + both);
    assert("network error: "@ + op@ + ": "@ + why@ =~= "network error: "@ + both);
    parts_are_found("seccomp error: "@, why@, why@);
    parts_are_found("OCI error: "@, why@, why@);
    parts_are_found("unsupported platform: "@, why@, why@);
}

} // verus!
