//! Domain types shared by every subsystem.

pub mod container;
pub mod cooperative;
pub mod error;
pub mod node;
pub mod resources;
pub mod traits;
