//! Tests of the domain types.

use leviathan::agent::{
    Action, Agent, Calculation, Event, Phase, Protocol, INITIAL_BACKOFF, MAX_BACKOFF,
};
use leviathan::collections::TextMap;
use leviathan::model::container::{Container, ContainerId, ContainerStatus, WorkloadSpec};
use leviathan::model::cooperative::{CooperativeYield, ExponentialBackoff};
use leviathan::model::error::{IoError, IoErrorKind, LeviathanError};
use leviathan::model::node::{Heartbeat, Node, NodeId, NodeMessage, NodeStatus, Timestamp};
use leviathan::model::resources::ResourceSpec;
use leviathan::model::traits::HealthStatus;
use leviathan::text::{contains_text, decimal_string, trimmed};

#[test]
fn new_container_is_pending_with_no_node() {
    let c = Container::new("c-1", "my-app", "ubuntu:22.04", ResourceSpec::new(500, 256));
    assert_eq!(c.status, ContainerStatus::Pending);
    assert!(c.node_id.is_none());
    assert_eq!(c.resources, ResourceSpec::new(500, 256));
}

#[test]
fn container_display() {
    let c = Container::new("c-1", "my-app", "ubuntu:22.04", ResourceSpec::default());
    let s = c.to_string();
    assert!(s.contains("my-app"));
    assert!(s.contains("Pending"));
}

#[test]
fn container_status_display() {
    assert_eq!(ContainerStatus::Running.to_string(), "Running");
    assert_eq!(ContainerStatus::Failed.to_string(), "Failed");
}

#[test]
fn workload_spec_fields() {
    let w = WorkloadSpec::new("wl-nginx", "web-server", "nginx:alpine", ResourceSpec::new(500, 256), 1);
    assert_eq!(w.id, "wl-nginx");
    assert_eq!(w.image, "nginx:alpine");
    assert_eq!(w.replicas, 1);
    assert_eq!(ContainerId::new("c-9").as_str(), "c-9");
}

#[test]
fn node_status_display() {
    assert_eq!(NodeStatus::Ready.to_string(), "Ready");
    assert_eq!(NodeStatus::NotReady.to_string(), "NotReady");
    assert_eq!(NodeStatus::Unknown.to_string(), "Unknown");
}

#[test]
fn node_display() {
    let node = Node::new("node-1", "127.0.0.1:7001", ResourceSpec::new(2000, 4096));
    let s = node.to_string();
    assert!(s.contains("node-1"));
    assert!(s.contains("Unknown"));
    assert!(s.contains("127.0.0.1:7001"));
}

#[test]
fn fits_within_returns_true_when_capacity_is_sufficient() {
    let request = ResourceSpec::new(1000, 2048);
    let available = ResourceSpec::new(4000, 8192);
    assert!(request.fits_within(&available));
}

#[test]
fn fits_within_returns_false_when_cpu_exceeds() {
    let request = ResourceSpec::new(5000, 2048);
    let available = ResourceSpec::new(4000, 8192);
    assert!(!request.fits_within(&available));
}

#[test]
fn add_resources() {
    let a = ResourceSpec::new(1000, 512);
    let b = ResourceSpec::new(2000, 1024);
    assert_eq!(a + b, ResourceSpec::new(3000, 1536));
}

#[test]
fn sub_resources_saturates_at_zero() {
    let a = ResourceSpec::new(1000, 512);
    let b = ResourceSpec::new(2000, 1024);
    assert_eq!(a - b, ResourceSpec::new(0, 0));
}

#[test]
fn subtraction_undoes_addition() {
    let capacity = ResourceSpec::new(4000, 8192);
    let request = ResourceSpec::new(1500, 1000);
    assert_eq!((capacity + request) - request, capacity);
}

#[test]
fn is_zero() {
    assert!(ResourceSpec::new(0, 0).is_zero());
    assert!(!ResourceSpec::new(1, 0).is_zero());
}

#[test]
fn display_format() {
    let r = ResourceSpec::new(2000, 4096);
    assert_eq!(r.to_string(), "2000m CPU / 4096Mi");
}

#[test]
fn test_exponential_backoff() {
    let factor = 2.0f64;
    let scaled = |b: &ExponentialBackoff| (b.current as f64 * factor) as u128;
    let mut backoff = ExponentialBackoff::new(100_000_000, 1_000_000_000);
    for expected in [100_000_000u128, 200_000_000, 400_000_000, 800_000_000, 1_000_000_000] {
        let next = scaled(&backoff);
        assert_eq!(backoff.next_backoff(next), expected);
    }
    backoff.reset(100_000_000);
    let next = scaled(&backoff);
    assert_eq!(backoff.next_backoff(next), 100_000_000);
}

#[test]
fn cooperative_yield_counts_down() {
    let mut y = CooperativeYield::new(3);
    assert!(!y.poll_ready());
    assert!(!y.poll_ready());
    assert!(!y.poll_ready());
    assert!(y.poll_ready());
    assert!(CooperativeYield::new(0).poll_ready());
}

#[test]
fn leviathan_error_messages() {
    assert_eq!(LeviathanError::NodeNotFound("n1".into()).to_string(), "node not found: n1");
    assert_eq!(
        LeviathanError::NoSchedulableNode { reason: "full".into() }.to_string(),
        "no schedulable node available: full"
    );
    let io = IoError { kind: IoErrorKind::Other, message: "disk on fire".into() };
    assert_eq!(LeviathanError::from(io).to_string(), "I/O error: disk on fire");
}

#[test]
fn health_status_display() {
    assert_eq!(HealthStatus::Healthy.to_string(), "Healthy");
    assert_eq!(
        HealthStatus::Degraded { reason: "slow".into() }.to_string(),
        "Degraded: slow"
    );
    assert_eq!(
        HealthStatus::Unhealthy { reason: "down".into() }.to_string(),
        "Unhealthy: down"
    );
}

#[test]
fn timestamps_count_nanoseconds() {
    let a = Timestamp { secs: 10, nanos: 500_000_000 };
    let b = Timestamp { secs: 12, nanos: 250_000_000 };
    assert_eq!(b.nanos_since(&a), 1_750_000_000);
    assert_eq!(a.nanos_since(&b), 0);
}

#[test]
fn leap_seconds_are_counted_as_chrono_does() {
    let times = [
        (43_259, 1_500_000_000),
        (43_265, 0),
        (43_259, 999_999_999),
        (43_319, 1_000_000_000),
        (86_399, 1_250_000_000),
        (86_400, 0),
        (129_599, 7),
        (-1, 1_750_000_000),
        (-50_000, 0),
    ];
    for (secs, nanos) in times {
        for (other_secs, other_nanos) in times {
            let here = chrono::DateTime::from_timestamp(secs, nanos).expect("time");
            let there = chrono::DateTime::from_timestamp(other_secs, other_nanos).expect("time");
            let passed = here.signed_duration_since(there).to_std().unwrap_or_default();
            let a = Timestamp { secs, nanos };
            let b = Timestamp { secs: other_secs, nanos: other_nanos };
            assert_eq!(a.nanos_since(&b), passed.as_nanos(), "{secs} {nanos} {other_secs} {other_nanos}");
        }
    }
    let leap = Timestamp { secs: 43_259, nanos: 1_500_000_000 };
    assert_eq!(Timestamp { secs: 43_265, nanos: 0 }.nanos_since(&leap), 5_500_000_000);
}

#[test]
fn json_errors_convert() {
    let e = serde_json::from_str::<u32>("not json").unwrap_err();
    let text = e.to_string();
    let converted: LeviathanError = e.into();
    assert!(matches!(converted, LeviathanError::Serialization(s) if s == text));
}

#[test]
fn text_map_keeps_order_and_replaces() {
    let mut m: TextMap<u32> = TextMap::new();
    m.insert("b".into(), 1);
    m.insert("a".into(), 2);
    m.insert("b".into(), 3);
    assert_eq!(m.len(), 2);
    assert_eq!(m.entry(0), (&"b".to_string(), &3));
    assert_eq!(m.entry(1), (&"a".to_string(), &2));
    assert_eq!(m.remove("b"), Some(3));
    assert_eq!(m.remove("b"), None);
    m.insert("c".into(), 4);
    m.insert("d".into(), 5);
    assert_eq!(m.remove("c"), Some(4));
    assert_eq!(m.entry(0), (&"a".to_string(), &2));
    assert_eq!(m.entry(1), (&"d".to_string(), &5));
    assert!(!m.contains_key("b"));
    assert_eq!(m.get("a"), Some(&2));
}

#[test]
fn text_helpers() {
    assert_eq!(decimal_string(0), "0");
    assert_eq!(decimal_string(u64::MAX), "18446744073709551615");
    assert_eq!(trimmed(" \t x y \r\n"), "x y");
    assert_eq!(trimmed("\u{3000}\u{a0}"), "");
    assert!(contains_text("http://0.0.0.0:80", "0.0.0.0"));
    assert!(!contains_text("10.0.0.1", "0.0.0.0"));
    assert!(contains_text("abc", ""));
    assert!(!contains_text("ab", "abc"));
}

fn agent(protocol: Protocol) -> Agent {
    Agent::new(
        NodeId::new("node-1"),
        "127.0.0.1:7001".into(),
        ResourceSpec::new(2000, 4096),
        protocol,
    )
}

fn heartbeat() -> NodeMessage {
    NodeMessage::Heartbeat(Heartbeat {
        node_id: NodeId::new("node-1"),
        status: NodeStatus::Ready,
        resources: ResourceSpec::new(2000, 4096),
        timestamp: Timestamp { secs: 0, nanos: 0 },
    })
}

#[test]
fn agent_registers_forwards_and_deregisters() {
    let mut a = agent(Protocol::Tcp);
    assert!(matches!(
        a.handle(Event::Connected),
        Action::Send(NodeMessage::Register { .. })
    ));
    assert!(matches!(a.handle(Event::Delivered), Action::Serve));
    assert!(matches!(
        a.handle(Event::Outgoing(heartbeat())),
        Action::Send(NodeMessage::Heartbeat(_))
    ));
    assert!(matches!(a.handle(Event::Delivered), Action::Serve));
    match a.handle(Event::Shutdown) {
        Action::Send(NodeMessage::Deregister { id }) => assert_eq!(id, NodeId::new("node-1")),
        other => panic!("unexpected {:?}", other),
    }
    assert!(matches!(a.handle(Event::Delivered), Action::Exit));
    assert_eq!(a.messages_sent, 3);
    assert_eq!(a.phase, Phase::Stopped);
}

#[test]
fn agent_backs_off_and_reconnects() {
    let mut a = agent(Protocol::Tcp);
    let scaled = a.backoff.current * 3 / 2;
    match a.handle(Event::ConnectFailed { scaled }) {
        Action::Sleep { nanos } => assert_eq!(nanos, INITIAL_BACKOFF),
        other => panic!("unexpected {:?}", other),
    }
    assert!(matches!(a.handle(Event::Rested), Action::Connect));
    match a.handle(Event::ConnectFailed { scaled: u128::MAX }) {
        Action::Sleep { nanos } => assert_eq!(nanos, 750_000_000),
        other => panic!("unexpected {:?}", other),
    }
    assert_eq!(a.backoff.current, MAX_BACKOFF);
    assert!(matches!(a.handle(Event::Rested), Action::Connect));
    assert!(matches!(a.handle(Event::Connected), Action::Send(_)));
    assert_eq!(a.backoff.current, INITIAL_BACKOFF);
    assert!(matches!(a.handle(Event::Undelivered), Action::Connect));
    assert!(matches!(a.handle(Event::Connected), Action::Send(_)));
    assert!(matches!(a.handle(Event::Delivered), Action::Serve));
    assert!(matches!(a.handle(Event::Outgoing(heartbeat())), Action::Send(_)));
    assert!(matches!(a.handle(Event::Undelivered), Action::Reconnect));
    assert!(matches!(a.handle(Event::Shutdown), Action::Exit));
}

#[test]
fn agent_counts_a_lost_deregistration_over_grpc_only() {
    for (protocol, sent) in [(Protocol::Tcp, 1u64), (Protocol::Grpc, 2)] {
        let mut a = agent(protocol);
        a.handle(Event::Connected);
        a.handle(Event::Delivered);
        a.handle(Event::Shutdown);
        assert!(matches!(a.handle(Event::Undelivered), Action::Exit));
        assert_eq!(a.messages_sent, sent);
    }
}

#[test]
fn agent_reports_itself_ready() {
    let hb = agent(Protocol::Grpc).heartbeat(Timestamp { secs: 7, nanos: 1 });
    assert_eq!(hb.node_id, NodeId::new("node-1"));
    assert_eq!(hb.status, NodeStatus::Ready);
    assert_eq!(hb.timestamp, Timestamp { secs: 7, nanos: 1 });
}

#[test]
fn calculation_matches_its_closed_form() {
    for input in [0usize, 1, 3] {
        let mut c = Calculation::new(input);
        while !c.is_done() {
            c.advance();
        }
        assert_eq!(c.sum, 4_999_995_000_000 * input as u64);
    }
}
