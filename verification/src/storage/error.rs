//! Error type of the storage engine.

use vstd::prelude::*;
use vstd::string::*;

use crate::encoding::error_text;
use crate::model::error::IoError;
use crate::text::{decimal, owned, parts_are_found, push_decimal};

verus! {

/// All errors produced by the write-ahead log and the memory-mapped store.
#[derive(Debug)]
pub enum StorageError {
    /// An I/O error raised by the operating system.
    Io(IoError),
    /// An entry's bytes cannot be encoded, or a frame's bytes decoded.
    Serialization(String),
    /// A log entry is structurally corrupt.
    CorruptEntry {
        /// The index at which corruption was detected.
        index: u64,
        /// Human-readable description of the corruption.
        reason: String,
    },
    /// A memory-mapped access was out of bounds.
    OutOfBounds {
        /// The starting byte offset of the attempted access.
        offset: usize,
        /// The number of bytes requested.
        len: usize,
        /// The total size of the mapped region.
        capacity: usize,
    },
    /// A truncation referenced an index that does not exist in the log.
    InvalidIndex(u64),
}

impl StorageError {
    /// The error message.
    pub open spec fn text(&self) -> Seq<char> {
        match *self {
            StorageError::Io(e) => "storage I/O error: "@ + e.message@,
            StorageError::Serialization(s) => "serialization error: "@ + s@,
            StorageError::CorruptEntry { index, reason } => "corrupt WAL entry at index "@
                + decimal(index as nat) + ": "@ + reason@,
            StorageError::OutOfBounds { offset, len, capacity } =>
                "mmap access out of bounds: offset="@ + decimal(offset as nat) + ", len="@
                + decimal(len as nat) + ", capacity="@ + decimal(capacity as nat),
            StorageError::InvalidIndex(index) => "invalid WAL truncation index: "@ + decimal(
                index as nat,
            ),
        }
    }

    /// Render the error message.
    pub fn to_string(&self) -> (s: String)
        ensures
            s@ == self.text(),
    {
        match self {
            StorageError::Io(e) => {
                let mut s = owned("storage I/O error: ");
                s.append(e.message.as_str());
                s
            },
            StorageError::Serialization(detail) => {
                let mut s = owned("serialization error: ");
                s.append(detail.as_str());
                s
            },
            StorageError::CorruptEntry { index, reason } => {
                let mut s = owned("corrupt WAL entry at index ");
                push_decimal(&mut s, *index);
                s.append(": ");
                s.append(reason.as_str());
                s
            },
            StorageError::OutOfBounds { offset, len, capacity } => {
                let mut s = owned("mmap access out of bounds: offset=");
                push_decimal(&mut s, *offset as u64);
                s.append(", len=");
                push_decimal(&mut s, *len as u64);
                s.append(", capacity=");
                push_decimal(&mut s, *capacity as u64);
                s
            },
            StorageError::InvalidIndex(index) => {
                let mut s = owned("invalid WAL truncation index: ");
                push_decimal(&mut s, *index);
                s
            },
        }
    }
}

impl From<Box<bincode::ErrorKind>> for StorageError {
    fn from(e: Box<bincode::ErrorKind>) -> (r: Self)
        ensures
            r is Serialization,
    {
        StorageError::Serialization(error_text(&e))
    }
}

impl vstd::std_specs::convert::FromSpecImpl<Box<bincode::ErrorKind>> for StorageError {
    open spec fn obeys_from_spec() -> bool {
        false
    }

    open spec fn from_spec(e: Box<bincode::ErrorKind>) -> Self {
        arbitrary()
    }
}

impl From<IoError> for StorageError {
    fn from(e: IoError) -> (r: Self) {
        StorageError::Io(e)
    }
}

impl vstd::std_specs::convert::FromSpecImpl<IoError> for StorageError {
    open spec fn obeys_from_spec() -> bool {
        true
    }

    open spec fn from_spec(e: IoError) -> Self {
        StorageError::Io(e)
    }
}

/// The message of an error gives the numbers or words that it carries, in their places.
pub proof fn storage_errors_keep_their_details(
    w: String,
    io: IoError,
    index: u64,
    offset: usize,
    len: usize,
    capacity: usize,
)
    ensures
        io.message@.is_suffix_of(StorageError::Io(io).text()),
        w@.is_suffix_of(StorageError::Serialization(w).text()),
        (decimal(index as nat) + (": "@ + w@)).is_suffix_of(
            (StorageError::CorruptEntry { index, reason: w }).text(),
        ),
        (decimal(offset as nat) + (", len="@ + decimal(len as nat) + (", capacity="@ + decimal(
            capacity as nat,
        )))).is_suffix_of((StorageError::OutOfBounds { offset, len, capacity }).text()),
        decimal(index as nat).is_suffix_of(StorageError::InvalidIndex(index).text()),
{
    assert(io.message@.is_suffix_of(StorageError::Io(io).text())) by {
        parts_are_found("storage I/O error: "@, io.message@, w@);
    }
    assert(w@.is_suffix_of(StorageError::Serialization(w).text())) by {
        parts_are_found("serialization error: "@, w@, w@);
    }
    let x = decimal(index as nat);
    let entry = x + (": "@ + w@);
    assert(entry.is_suffix_of((StorageError::CorruptEntry { index, reason: w }).text())) by {
        parts_are_found("corrupt WAL entry at index "@, entry, w@);
        assert("corrupt WAL entry at index "@ + x + ": "@ + w@ =~= "corrupt WAL entry at index "@
            + entry);
    }
    let a = decimal(offset as nat);
    let b = decimal(len as nat);
    let c = decimal(capacity as nat);
    let access = a + (", len="@ + b + (", capacity="@ + c));
    assert(access.is_suffix_of((StorageError::OutOfBounds { offset, len, capacity }).text())) by {
        parts_are_found("mmap access out of bounds: offset="@, access, w@);
        assert("mmap access out of bounds: offset="@ + a + ", len="@ + b + ", capacity="@ + c
            =~= "mmap access out of bounds: offset="@ + access);
    }
    assert(x.is_suffix_of(StorageError::InvalidIndex(index).text())) by {
        parts_are_found("invalid WAL truncation index: "@, x, w@);
    }
}

} // verus!
