//! Service mesh: trace context, sidecar proxy and TLS configuration.

pub mod error;
pub mod mtls;
pub mod proxy;
pub mod trace;
