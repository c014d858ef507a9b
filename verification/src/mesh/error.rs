//! Service mesh error type.

use vstd::prelude::*;
use vstd::string::*;

use crate::model::error::{IoError, LeviathanError};
use crate::text::{owned, parts_are_found};

verus! {

/// Failures of the service mesh.
#[derive(Debug)]
pub enum MeshError {
    /// TLS configuration or handshake failure.
    TlsError(String),
    /// Proxy connection or forwarding failure.
    ProxyError(String),
    /// Invalid trace context header.
    TraceContextError(String),
    /// I/O error in proxy operation.
    Io(IoError),
    /// Certificate generation error.
    CertificateError(String),
}

impl MeshError {
    /// The error message.
    pub open spec fn text(&self) -> Seq<char> {
        match *self {
            MeshError::TlsError(s) => "TLS error: "@ + s@,
            MeshError::ProxyError(s) => "proxy error: "@ + s@,
            MeshError::TraceContextError(s) => "trace context error: "@ + s@,
            MeshError::Io(e) => "I/O error: "@ + e.message@,
            MeshError::CertificateError(s) => "certificate error: "@ + s@,
        }
    }

    /// Render the error message.
    pub fn to_string(&self) -> (s: String)
        ensures
            s@ == self.text(),
    {
        let (prefix, detail): (&str, &str) = match self {
            MeshError::TlsError(s) => ("TLS error: ", s.as_str()),
            MeshError::ProxyError(s) => ("proxy error: ", s.as_str()),
            MeshError::TraceContextError(s) => ("trace context error: ", s.as_str()),
            MeshError::Io(e) => ("I/O error: ", e.message.as_str()),
            MeshError::CertificateError(s) => ("certificate error: ", s.as_str()),
        };
        let mut s = owned(prefix);
        s.append(detail);
        s
    }
}

impl From<IoError> for MeshError {
    fn from(e: IoError) -> (r: Self) {
        MeshError::Io(e)
    }
}

impl vstd::std_specs::convert::FromSpecImpl<IoError> for MeshError {
    open spec fn obeys_from_spec() -> bool {
        true
    }

    open spec fn from_spec(e: IoError) -> Self {
        MeshError::Io(e)
    }
}

impl From<MeshError> for LeviathanError {
    fn from(e: MeshError) -> (r: Self)
        ensures
            r is Network,
            r->Network_0@ == e.text(),
    {
        LeviathanError::Network(e.to_string())
    }
}

impl vstd::std_specs::convert::FromSpecImpl<MeshError> for LeviathanError {
    open spec fn obeys_from_spec() -> bool {
        false
    }

    open spec fn from_spec(e: MeshError) -> Self {
        arbitrary()
    }
}

/// The message of an error names the part of the mesh that failed, and ends with what it
/// failed with, unchanged.
pub proof fn mesh_errors_keep_their_words(words: String, io: IoError)
    ensures
        "TLS error: "@.is_prefix_of(MeshError::TlsError(words).text()),
        "proxy error: "@.is_prefix_of(MeshError::ProxyError(words).text()),
        "trace context error: "@.is_prefix_of(MeshError::TraceContextError(words).text()),
        "certificate error: "@.is_prefix_of(MeshError::CertificateError(words).text()),
        "I/O error: "@.is_prefix_of(MeshError::Io(io).text()),
        words@.is_suffix_of(MeshError::TlsError(words).text()),
        words@.is_suffix_of(MeshError::ProxyError(words).text()),
        words@.is_suffix_of(MeshError::TraceContextError(words).text()),
        words@.is_suffix_of(MeshError::CertificateError(words).text()),
        io.message@.is_suffix_of(MeshError::Io(io).text()),
{
    parts_are_found("TLS error: "@, words@, words@);
    parts_are_found("proxy error: "@, words@, words@);
    parts_are_found("trace context error: "@, words@, words@);
    parts_are_found("certificate error: "@, words@, words@);
    parts_are_found("I/O error: "@, io.message@, words@);
}

} // verus!
