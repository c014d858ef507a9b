//! Durable storage.

pub mod error;
pub mod mmap;
pub mod wal;
