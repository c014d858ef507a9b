//! Verified core of the Leviathan container orchestration platform.

pub mod agent;
pub mod cli;
pub mod collections;
pub mod control;
pub mod encoding;
pub mod mesh;
pub mod metrics;
pub mod model;
pub mod net;
pub mod raft;
pub mod runtime;
pub mod scheduler;
pub mod storage;
pub mod text;
