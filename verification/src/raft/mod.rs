//! Raft consensus.

pub mod config;
pub mod durability;
pub mod error;
pub mod lock;
pub mod log;
pub mod message;
pub mod node;
pub mod progress;
pub mod protocol;
pub mod state_machine;
pub mod wire;
