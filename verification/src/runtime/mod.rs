//! Container runtime: isolation, limits and lifecycle.

pub mod cgroup;
pub mod container;
pub mod error;
pub mod filesystem;
pub mod namespace;
pub mod network;
pub mod paths;
pub mod seccomp;
pub mod steps;
