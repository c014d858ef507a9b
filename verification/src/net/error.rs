//! Network-layer error type.

use vstd::prelude::*;
use vstd::string::*;

use crate::encoding::error_text;
use crate::model::error::{IoError, LeviathanError};
use crate::text::{decimal, occurs_in, owned, parts_are_found, push_decimal};

verus! {

/// Maximum frame payload size (16 MiB). Larger frames are rejected to prevent a
/// corrupted stream from exhausting memory.
pub const MAX_FRAME_SIZE: u32 = 16_777_216;

/// Failures of the transport layer.
#[derive(Debug)]
pub enum NetError {
    /// An underlying I/O error from the TCP stack.
    Io(IoError),
    /// Encoding or decoding a message failed.
    Serialization(String),
    /// The remote peer closed the connection or the OS reported a reset. Callers
    /// should reconnect.
    ConnectionReset(String),
    /// A frame is larger than [`MAX_FRAME_SIZE`].
    FrameTooLarge {
        /// The payload size.
        size: u32,
    },
    /// The connection closed in the middle of a frame.
    IncompleteFrame {
        /// How many bytes were read.
        bytes_read: usize,
        /// How many bytes there should have been.
        expected: usize,
    },
    /// A gRPC transport-level error (connection refused, TLS failure, etc.).
    GrpcTransport(String),
}

impl NetError {
    /// The error message.
    pub open spec fn text(&self) -> Seq<char> {
        match *self {
            NetError::Io(e) => "I/O error: "@ + e.message@,
            NetError::Serialization(s) => "serialization error: "@ + s@,
            NetError::ConnectionReset(s) => "connection reset: "@ + s@,
            NetError::FrameTooLarge { size } => "frame too large: "@ + decimal(size as nat)
                + " bytes (max "@ + decimal(16_777_216) + ")"@,
            NetError::IncompleteFrame { bytes_read, expected } =>
                "incomplete frame: connection closed after "@ + decimal(bytes_read as nat) + " of "@
                + decimal(expected as nat) + " bytes"@,
            NetError::GrpcTransport(s) => "gRPC transport error: "@ + s@,
        }
    }

    /// Render the error message.
    pub fn to_string(&self) -> (s: String)
        ensures
            s@ == self.text(),
    {
        match self {
            NetError::Io(e) => {
                let mut s = owned("I/O error: ");
                s.append(e.message.as_str());
                s
            },
            NetError::Serialization(detail) => {
                let mut s = owned("serialization error: ");
                s.append(detail.as_str());
                s
            },
            NetError::ConnectionReset(detail) => {
                let mut s = owned("connection reset: ");
                s.append(detail.as_str());
                s
            },
            NetError::FrameTooLarge { size } => {
                let mut s = owned("frame too large: ");
                push_decimal(&mut s, *size as u64);
                s.append(" bytes (max ");
                push_decimal(&mut s, MAX_FRAME_SIZE as u64);
                s.append(")");
                s
            },
            NetError::IncompleteFrame { bytes_read, expected } => {
                let mut s = owned("incomplete frame: connection closed after ");
                push_decimal(&mut s, *bytes_read as u64);
                s.append(" of ");
                push_decimal(&mut s, *expected as u64);
                s.append(" bytes");
                s
            },
            NetError::GrpcTransport(detail) => {
                let mut s = owned("gRPC transport error: ");
                s.append(detail.as_str());
                s
            },
        }
    }
}

impl From<IoError> for NetError {
    fn from(e: IoError) -> (r: Self) {
        NetError::Io(e)
    }
}

impl vstd::std_specs::convert::FromSpecImpl<IoError> for NetError {
    open spec fn obeys_from_spec() -> bool {
        true
    }

    open spec fn from_spec(e: IoError) -> Self {
        NetError::Io(e)
    }
}

impl From<Box<bincode::ErrorKind>> for NetError {
    fn from(e: Box<bincode::ErrorKind>) -> (r: Self)
        ensures
            r is Serialization,
    {
        NetError::Serialization(error_text(&e))
    }
}

impl vstd::std_specs::convert::FromSpecImpl<Box<bincode::ErrorKind>> for NetError {
    open spec fn obeys_from_spec() -> bool {
        false
    }

    open spec fn from_spec(e: Box<bincode::ErrorKind>) -> Self {
        arbitrary()
    }
}

impl From<NetError> for LeviathanError {
    fn from(e: NetError) -> (r: Self)
        ensures
            r is Network,
            r->Network_0@ == e.text(),
    {
        LeviathanError::Network(e.to_string())
    }
}

impl vstd::std_specs::convert::FromSpecImpl<NetError> for LeviathanError {
    open spec fn obeys_from_spec() -> bool {
        false
    }

    open spec fn from_spec(e: NetError) -> Self {
        arbitrary()
    }
}

/// The message of an error gives the numbers or words that it carries, in their places.
pub proof fn network_errors_keep_their_details(
    w: String,
    io: IoError,
    size: u32,
    got: usize,
    expected: usize,
)
    ensures
        io.message@.is_suffix_of(NetError::Io(io).text()),
        w@.is_suffix_of(NetError::Serialization(w).text()),
        w@.is_suffix_of(NetError::ConnectionReset(w).text()),
        w@.is_suffix_of(NetError::GrpcTransport(w).text()),
        occurs_in(decimal(size as nat), (NetError::FrameTooLarge { size }).text()),
        (decimal(got as nat) + (" of "@ + decimal(expected as nat) + " bytes"@)).is_suffix_of(
            (NetError::IncompleteFrame { bytes_read: got, expected }).text(),
        ),
{
    assert(io.message@.is_suffix_of(NetError::Io(io).text())) by {
        parts_are_found("I/O error: "@, io.message@, w@);
    }
    assert(w@.is_suffix_of(NetError::Serialization(w).text())) by {
        parts_are_found("serialization error: "@, w@, w@);
    }
    assert(w@.is_suffix_of(NetError::ConnectionReset(w).text())) by {
        parts_are_found("connection reset: "@, w@, w@);
    }
    assert(w@.is_suffix_of(NetError::GrpcTransport(w).text())) by {
        parts_are_found("gRPC transport error: "@, w@, w@);
    }
    let x = decimal(size as nat);
    assert(occurs_in(x, (NetError::FrameTooLarge { size }).text())) by {
        let rest = " bytes (max "@ + decimal(16_777_216) + ")"@;
        parts_are_found("frame too large: "@, x, rest);
        assert("frame too large: "@ + x + rest =~= "frame too large: "@ + x + " bytes (max "@
            + decimal(16_777_216) + ")"@);
    }
    let a = decimal(got as nat);
    let b = decimal(expected as nat);
    let tail = a + (" of "@ + b + " bytes"@);
    assert(tail.is_suffix_of((NetError::IncompleteFrame { bytes_read: got, expected }).text())) by {
        parts_are_found("incomplete frame: connection closed after "@, tail, w@);
        assert("incomplete frame: connection closed after "@ + a + " of "@ + b + " bytes"@
            =~= "incomplete frame: connection closed after "@ + tail);
    }
}

} // verus!
