//! Per-container sidecar proxy: what it does about connections.

use vstd::prelude::*;
use vstd::string::*;

use crate::mesh::error::MeshError;
use crate::mesh::mtls::TlsConfig;
use crate::mesh::trace::{header_of, TraceContext};
use crate::text::{hex, owned};

verus! {

/// An address that can be listened on or connected to.
#[derive(Debug)]
pub struct Endpoint {
    /// Host name or IP address.
    pub host: String,
    /// Port.
    pub port: u16,
}

impl Clone for Endpoint {
    fn clone(&self) -> (r: Self)
        ensures
            r == *self,
    {
        Endpoint { host: self.host.clone(), port: self.port }
    }
}

/// Configuration for a sidecar proxy instance.
#[derive(Debug)]
pub struct ProxyConfig {
    /// Address the proxy listens on for inbound traffic.
    pub listen_addr: Endpoint,
    /// Address to forward traffic to (the container's actual port).
    pub upstream_addr: Endpoint,
    /// Container ID this proxy is associated with.
    pub container_id: String,
    /// Whether to enable mTLS on inbound connections.
    pub mtls_enabled: bool,
    /// Whether to inject trace context headers.
    pub trace_enabled: bool,
}

/// A sidecar proxy managing traffic for a single container.
pub struct SidecarProxy {
    /// Proxy configuration.
    pub config: ProxyConfig,
    /// TLS configuration, used when mTLS is enabled.
    pub tls_config: Option<TlsConfig>,
}

/// What happens to a running proxy.
#[derive(Debug)]
pub enum ProxyEvent {
    /// The shutdown signal changed to a value.
    ShutdownChanged {
        /// Whether the proxy is to shut down.
        requested: bool,
    },
    /// An inbound connection was accepted.
    Accepted,
    /// Accepting a connection failed.
    AcceptFailed,
}

/// What a running proxy does.
#[derive(Debug)]
pub enum ProxyAction {
    /// Stop listening.
    Stop,
    /// Go on listening.
    Continue,
    /// Forward the accepted connection and go on listening.
    Forward {
        /// Where to forward to.
        upstream: Endpoint,
        /// The `traceparent` header of the connection, if traces are enabled.
        traceparent: Option<String>,
        /// Whether a TLS handshake with the client comes first.
        terminate_tls: bool,
    },
}

/// How forwarding a connection failed.
#[derive(Debug)]
pub enum ForwardFailure {
    /// The TLS handshake with the client failed.
    Handshake(String),
    /// The upstream could not be reached.
    Connect(String),
    /// Data could not be relayed.
    Copy(String),
}

impl SidecarProxy {
    /// Create a new sidecar proxy with the given configuration.
    pub fn new(config: ProxyConfig, tls_config: Option<TlsConfig>) -> (p: Self)
        ensures
            p.config == config,
            p.tls_config == tls_config,
    {
        SidecarProxy { config, tls_config }
    }

    /// Return the proxy's listen address.
    pub fn listen_addr(&self) -> (a: &Endpoint)
        ensures
            *a == self.config.listen_addr,
    {
        &self.config.listen_addr
    }

    /// Return the upstream address.
    pub fn upstream_addr(&self) -> (a: &Endpoint)
        ensures
            *a == self.config.upstream_addr,
    {
        &self.config.upstream_addr
    }

    /// The error for a listener that cannot be bound.
    pub fn bind_failed(&self, reason: &str) -> (e: MeshError)
        ensures
            e is ProxyError,
            e->ProxyError_0@ == "bind failed: "@ + reason@,
    {
        let mut s = owned("bind failed: ");
        s.append(reason);
        MeshError::ProxyError(s)
    }

    /// Decide what follows from an event, at a clock reading in nanoseconds. The
    /// proxy stops when it is asked to; every accepted connection is forwarded to
    /// the upstream, after a TLS handshake if mTLS is enabled; nothing else ends the
    /// proxy.
    pub fn handle(&self, event: ProxyEvent, nanos: u128) -> (action: ProxyAction)
        ensures
            match event {
                ProxyEvent::ShutdownChanged { requested } => action == (if requested {
                    ProxyAction::Stop
                } else {
                    ProxyAction::Continue
                }),
                ProxyEvent::AcceptFailed => action == ProxyAction::Continue,
                ProxyEvent::Accepted => {
                    &&& action is Forward
                    &&& action->upstream == self.config.upstream_addr
                    &&& action->terminate_tls == self.config.mtls_enabled
                    &&& match action->traceparent {
                        Some(header) => self.config.trace_enabled && header@ == header_of(
                            hex(nanos as nat, 32),
                            hex(nanos as nat, 16),
                            1,
                        ),
                        None => !self.config.trace_enabled,
                    }
                },
            },
    {
        match event {
            ProxyEvent::ShutdownChanged { requested } => if requested {
                ProxyAction::Stop
            } else {
                ProxyAction::Continue
            },
            ProxyEvent::AcceptFailed => ProxyAction::Continue,
            ProxyEvent::Accepted => {
                let traceparent = if self.config.trace_enabled {
                    Some(TraceContext::new_random(nanos).to_header())
                } else {
                    None
                };
                ProxyAction::Forward {
                    upstream: self.config.upstream_addr.clone(),
                    traceparent,
                    terminate_tls: self.config.mtls_enabled,
                }
            },
        }
    }
}

/// The error for a connection that could not be forwarded.
pub fn forward_failed(failure: ForwardFailure) -> (e: MeshError)
    ensures
        match failure {
            ForwardFailure::Handshake(reason) => e == MeshError::TlsError(reason),
            ForwardFailure::Connect(reason) => e is ProxyError && e->ProxyError_0@
                == "upstream connect: "@ + reason@,
            ForwardFailure::Copy(reason) => e is ProxyError && e->ProxyError_0@ == "copy: "@
                + reason@,
        },
{
    match failure {
        ForwardFailure::Handshake(reason) => MeshError::TlsError(reason),
        ForwardFailure::Connect(reason) => {
            let mut s = owned("upstream connect: ");
            s.append(reason.as_str());
            MeshError::ProxyError(s)
        },
        ForwardFailure::Copy(reason) => {
            let mut s = owned("copy: ");
            s.append(reason.as_str());
            MeshError::ProxyError(s)
        },
    }
}

/// An accepted connection goes to the configured upstream, after a TLS handshake exactly if
/// mTLS is on, and with a trace header exactly if traces are; the proxy stops exactly when
/// it is asked to.
pub proof fn connections_go_to_the_upstream(
    p: SidecarProxy,
    event: ProxyEvent,
    nanos: u128,
    action: ProxyAction,
)
    requires
        call_ensures(SidecarProxy::handle, (&p, event, nanos), action),
    ensures
        event is Accepted <==> action is Forward,
        action is Forward ==> action->upstream == p.config.upstream_addr,
        action is Forward ==> action->terminate_tls == p.config.mtls_enabled,
        action is Forward ==> (action->traceparent is Some <==> p.config.trace_enabled),
        action is Stop <==> (event matches ProxyEvent::ShutdownChanged { requested } && requested),
{
}

/// Why a connection could not be forwarded is told with the words of the failure: a failed
/// handshake as a failure of TLS, the rest as failures of the proxy.
pub proof fn forwarding_failures_keep_their_words(failure: ForwardFailure, e: MeshError)
    requires
        call_ensures(forward_failed, (failure,), e),
    ensures
        failure matches ForwardFailure::Handshake(s) ==> e is TlsError && e->TlsError_0@ == s@,
        failure matches ForwardFailure::Connect(s) ==> e is ProxyError && e->ProxyError_0@
            == "upstream connect: "@ + s@,
        failure matches ForwardFailure::Copy(s) ==> e is ProxyError && e->ProxyError_0@ == "copy: "@
            + s@,
{
}

} // verus!
