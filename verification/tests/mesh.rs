//! Tests of the service mesh.

use leviathan::mesh::error::MeshError;
use leviathan::mesh::mtls::{test_names, TlsConfig};
use leviathan::mesh::proxy::{
    forward_failed, Endpoint, ForwardFailure, ProxyAction, ProxyConfig, ProxyEvent, SidecarProxy,
};
use leviathan::mesh::trace::{TraceContext, TraceState};
use leviathan::model::error::LeviathanError;

#[test]
fn parse_valid_traceparent() {
    let header = "00-0af7651916cd43dd8448eb211c80319c-b7ad6b7169203331-01";
    let ctx = TraceContext::parse(header).expect("valid traceparent");
    assert_eq!(ctx.trace_id, "0af7651916cd43dd8448eb211c80319c");
    assert_eq!(ctx.parent_id, "b7ad6b7169203331");
    assert_eq!(ctx.trace_flags, 0x01);
    assert!(ctx.is_sampled());
}

#[test]
fn roundtrip_traceparent() {
    let ctx = TraceContext {
        trace_id: "0af7651916cd43dd8448eb211c80319c".into(),
        parent_id: "b7ad6b7169203331".into(),
        trace_flags: 0x01,
    };
    let header = ctx.to_header();
    let parsed = TraceContext::parse(&header).expect("roundtrip");
    assert_eq!(ctx, parsed);
}

#[test]
fn parse_invalid_version() {
    let header = "ff-0af7651916cd43dd8448eb211c80319c-b7ad6b7169203331-01";
    assert!(TraceContext::parse(header).is_none());
}

#[test]
fn parse_invalid_length() {
    let header = "00-short-b7ad6b7169203331-01";
    assert!(TraceContext::parse(header).is_none());
}

#[test]
fn parse_rejects_what_is_not_hexadecimal() {
    let id = "0af7651916cd43dd8448eb211c80319c";
    for header in [
        "00-0af7651916cd43dd8448eb211c80319z-b7ad6b7169203331-01".to_string(),
        format!("00-{id}-b7ad6b716920333x-01"),
        format!("00-{id}-b7ad6b7169203331-0g"),
        format!("00-{id}-b7ad6b7169203331-1"),
        format!("00-{id}-b7ad6b7169203331-001"),
        format!("00-{id}-b7ad6b7169203331-01-"),
    ] {
        assert!(TraceContext::parse(&header).is_none(), "{header}");
    }
    let upper = TraceContext::parse(&format!("00-{id}-b7ad6b7169203331-Ff")).expect("flags");
    assert_eq!(upper.trace_flags, 0xff);
    assert_eq!(upper.to_header(), format!("00-{id}-b7ad6b7169203331-ff"));
}

#[test]
fn new_random_is_sampled() {
    let ctx = TraceContext::new_random(1_700_000_000_123_456_789);
    assert!(ctx.is_sampled());
    assert_eq!(ctx.trace_id.len(), 32);
    assert_eq!(ctx.trace_id, format!("{:032x}", 1_700_000_000_123_456_789u128));
    assert_eq!(ctx.parent_id, format!("{:016x}", 1_700_000_000_123_456_789u64));
    let wide = TraceContext::new_random(u128::MAX - 1);
    assert_eq!(wide.trace_id, format!("{:032x}", u128::MAX - 1));
    assert_eq!(wide.parent_id, format!("{:016x}", (u128::MAX - 1) as u64));
}

#[test]
fn child_span_preserves_trace_id() {
    let parent = TraceContext::new_random(1_700_000_000_123_456_789);
    let child = parent.child_span("deadbeef01234567");
    assert_eq!(child.trace_id, parent.trace_id);
    assert_eq!(child.parent_id, "deadbeef01234567");
}

#[test]
fn trace_state_is_propagated_unchanged() {
    let state = TraceState::parse("congo=t61rcWkgMzE,rojo=00f067aa0ba902b7");
    assert_eq!(state.to_header(), "congo=t61rcWkgMzE,rojo=00f067aa0ba902b7");
    assert_eq!(TraceState::default().to_header(), "");
}

#[test]
fn unsampled_flags() {
    let mut ctx = TraceContext::new_random(5);
    ctx.trace_flags = 0xfe;
    assert!(!ctx.is_sampled());
}

fn config(trace_enabled: bool) -> ProxyConfig {
    ProxyConfig {
        listen_addr: Endpoint { host: "127.0.0.1".into(), port: 15001 },
        upstream_addr: Endpoint { host: "127.0.0.1".into(), port: 8080 },
        container_id: "test-c1".into(),
        mtls_enabled: false,
        trace_enabled,
    }
}

#[test]
fn proxy_config_defaults() {
    let config = config(true);
    assert_eq!(config.listen_addr.port, 15001);
}

#[test]
fn sidecar_proxy_construction() {
    let proxy = SidecarProxy::new(config(false), None);
    assert_eq!(proxy.listen_addr().port, 15001);
    assert_eq!(proxy.upstream_addr().port, 8080);
}

#[test]
fn proxy_forwards_and_stops() {
    let proxy = SidecarProxy::new(config(true), None);
    match proxy.handle(ProxyEvent::Accepted, 255) {
        ProxyAction::Forward { upstream, traceparent, terminate_tls } => {
            assert_eq!(upstream.port, 8080);
            assert!(!terminate_tls);
            let header = traceparent.expect("traceparent");
            assert_eq!(header, "00-000000000000000000000000000000ff-00000000000000ff-01");
        }
        other => panic!("unexpected {:?}", other),
    }
    assert!(matches!(proxy.handle(ProxyEvent::AcceptFailed, 0), ProxyAction::Continue));
    assert!(matches!(
        proxy.handle(ProxyEvent::ShutdownChanged { requested: false }, 0),
        ProxyAction::Continue
    ));
    assert!(matches!(
        proxy.handle(ProxyEvent::ShutdownChanged { requested: true }, 0),
        ProxyAction::Stop
    ));
    let quiet = SidecarProxy::new(config(false), None);
    assert!(matches!(
        quiet.handle(ProxyEvent::Accepted, 1),
        ProxyAction::Forward { traceparent: None, .. }
    ));
    let mut secure = config(false);
    secure.mtls_enabled = true;
    assert!(matches!(
        SidecarProxy::new(secure, None).handle(ProxyEvent::Accepted, 1),
        ProxyAction::Forward { terminate_tls: true, .. }
    ));
}

#[test]
fn proxy_errors() {
    let proxy = SidecarProxy::new(config(false), None);
    assert_eq!(proxy.bind_failed("in use").to_string(), "proxy error: bind failed: in use");
    assert_eq!(
        forward_failed(ForwardFailure::Connect("refused".into())).to_string(),
        "proxy error: upstream connect: refused"
    );
    assert_eq!(
        forward_failed(ForwardFailure::Copy("reset".into())).to_string(),
        "proxy error: copy: reset"
    );
    assert!(matches!(
        forward_failed(ForwardFailure::Handshake("no cipher".into())),
        MeshError::TlsError(s) if s == "no cipher"
    ));
    let e: LeviathanError = MeshError::TraceContextError("bad".into()).into();
    assert_eq!(e.to_string(), "network error: trace context error: bad");
}

#[test]
fn self_signed_config_creates_successfully() {
    let config = TlsConfig::self_signed_for_testing();
    assert!(config.is_ok(), "self-signed TLS config should succeed");
}

#[test]
fn test_certificates_are_for_the_local_host() {
    assert_eq!(test_names(), vec!["localhost".to_string(), "127.0.0.1".to_string()]);
}

#[test]
fn generated_certificates_are_configured_or_refused() {
    match TlsConfig::self_signed(Err("no entropy".into())) {
        Err(MeshError::CertificateError(s)) => assert_eq!(s, "no entropy"),
        Err(e) => panic!("unexpected {}", e.to_string()),
        Ok(_) => panic!("a failure was accepted"),
    }
    match TlsConfig::self_signed(Ok((vec![1, 2, 3], vec![4, 5, 6]))) {
        Err(MeshError::TlsError(s)) => assert!(s.starts_with("server config: "), "{s}"),
        Err(e) => panic!("unexpected {}", e.to_string()),
        Ok(_) => panic!("garbage was accepted"),
    }
    let pair = rcgen::generate_simple_self_signed(test_names()).expect("certificate");
    let generated = (pair.cert.der().to_vec(), pair.key_pair.serialize_der());
    assert!(TlsConfig::self_signed(Ok(generated)).is_ok());
}

#[test]
fn server_and_client_configs_are_valid() {
    let config = match TlsConfig::self_signed_for_testing() {
        Ok(config) => config,
        Err(e) => panic!("tls config: {}", e.to_string()),
    };
    let _server = config.server_config();
    let _client = config.client_config();
}

#[test]
fn invalid_key_is_a_tls_error() {
    match TlsConfig::new(&vec![vec![1, 2, 3]], &vec![4, 5, 6]) {
        Err(MeshError::TlsError(s)) => assert!(s.starts_with("server config: "), "{s}"),
        Err(e) => panic!("unexpected {}", e.to_string()),
        Ok(_) => panic!("garbage was accepted"),
    }
}

#[test]
fn the_words_of_a_refused_server_are_kept() {
    match TlsConfig::server_outcome(Err("no key".into()), &vec![vec![1, 2, 3]]) {
        Err(MeshError::TlsError(s)) => assert_eq!(s, "server config: no key"),
        Err(e) => panic!("unexpected {}", e.to_string()),
        Ok(_) => panic!("a refusal was accepted"),
    }
    let pair = rcgen::generate_simple_self_signed(test_names()).expect("certificate");
    let chain = vec![pair.cert.der().to_vec()];
    let config = match TlsConfig::new(&chain, &pair.key_pair.serialize_der()) {
        Ok(config) => config,
        Err(e) => panic!("tls config: {}", e.to_string()),
    };
    let server = (*config.server_config()).clone();
    assert!(TlsConfig::server_outcome(Ok(server.clone()), &chain).is_ok());
    match TlsConfig::server_outcome(Ok(server), &vec![vec![1, 2, 3]]) {
        Err(MeshError::TlsError(s)) => assert!(s.starts_with("root store: "), "{s}"),
        Err(e) => panic!("unexpected {}", e.to_string()),
        Ok(_) => panic!("garbage was trusted"),
    }
}

#[test]
fn untrusted_certificate_is_a_tls_error() {
    let pair = rcgen::generate_simple_self_signed(vec!["localhost".to_string()]).expect("pair");
    let good = pair.cert.der().to_vec();
    let key = pair.key_pair.serialize_der();
    assert!(TlsConfig::new(&vec![good.clone()], &key).is_ok());
    match TlsConfig::new(&vec![good, vec![1, 2, 3]], &key) {
        Err(MeshError::TlsError(s)) => assert!(s.starts_with("root store: "), "{s}"),
        Err(e) => panic!("unexpected {}", e.to_string()),
        Ok(_) => panic!("garbage was trusted"),
    }
}
