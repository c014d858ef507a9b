//! Tests of the control plane, the metrics endpoint and the command line.

use leviathan::cli::{
    handle_cluster, handle_container, handle_node, log_level, ClusterCommand, ContainerCommand,
    NodeCommand,
};
use leviathan::control::{
    handle_connection_event, line_payload, ClusterState, ConnectionEvent, StateCommand,
};
use leviathan::metrics::{handle_request, reply, role_value, route, MetricsRegistry, Route};
use leviathan::model::node::{Heartbeat, Node, NodeId, NodeMessage, NodeStatus, Timestamp};
use leviathan::model::resources::ResourceSpec;
use leviathan::raft::node::Role;

fn at(secs: i64) -> Timestamp {
    Timestamp { secs, nanos: 0 }
}

fn status(state: &mut ClusterState, id: &str) -> NodeStatus {
    let nodes = state.handle_command(StateCommand::GetNodes, at(0)).expect("nodes");
    nodes.iter().find(|n| n.id == NodeId::new(id)).expect("node").status
}

fn register(id: &str) -> StateCommand {
    StateCommand::RegisterNode { node: Node::new(id, "h:1", ResourceSpec::new(1, 1)) }
}

fn heartbeat(id: &str, secs: i64) -> StateCommand {
    StateCommand::RecordHeartbeat {
        heartbeat: Heartbeat {
            node_id: NodeId::new(id),
            status: NodeStatus::NotReady,
            resources: ResourceSpec::new(7, 8),
            timestamp: at(secs),
        },
    }
}

const GRACE: u128 = 6_000_000_000;

#[test]
fn registered_nodes_are_ready() {
    let mut state = ClusterState::new();
    assert!(state.handle_command(register("n1"), at(0)).is_none());
    assert_eq!(status(&mut state, "n1"), NodeStatus::Ready);
    assert_eq!(state.handle_command(StateCommand::GetNodes, at(0)).unwrap().len(), 1);
}

#[test]
fn missed_heartbeats_mark_a_node_unknown() {
    let mut state = ClusterState::new();
    state.handle_command(register("n1"), at(0));
    state.handle_command(register("n2"), at(0));
    state.handle_command(heartbeat("n1", 5), at(5));
    state.handle_command(StateCommand::ReconcileLiveness { grace_period: GRACE }, at(6));
    assert_eq!(status(&mut state, "n2"), NodeStatus::Ready);
    state.handle_command(StateCommand::ReconcileLiveness { grace_period: GRACE }, at(7));
    assert_eq!(status(&mut state, "n1"), NodeStatus::Ready);
    assert_eq!(status(&mut state, "n2"), NodeStatus::Unknown);
    state.handle_command(heartbeat("n2", 8), at(8));
    assert_eq!(status(&mut state, "n2"), NodeStatus::Ready);
}

#[test]
fn a_clock_that_runs_ahead_does_not_expire() {
    let mut state = ClusterState::new();
    state.handle_command(register("n1"), at(100));
    state.handle_command(StateCommand::ReconcileLiveness { grace_period: 0 }, at(50));
    assert_eq!(status(&mut state, "n1"), NodeStatus::Ready);
}

#[test]
fn heartbeat_of_a_stranger_registers_it() {
    let mut state = ClusterState::new();
    state.handle_command(heartbeat("n1", 3), at(100));
    let nodes = state.handle_command(StateCommand::GetNodes, at(100)).unwrap();
    assert_eq!(nodes[0].addr, "unknown");
    assert_eq!(nodes[0].resources, ResourceSpec::new(7, 8));
    assert_eq!(nodes[0].status, NodeStatus::Ready);
    state.handle_command(StateCommand::ReconcileLiveness { grace_period: GRACE }, at(105));
    assert_eq!(status(&mut state, "n1"), NodeStatus::Ready);
}

#[test]
fn deregistered_nodes_stay_listed() {
    let mut state = ClusterState::new();
    state.handle_command(register("n1"), at(0));
    state.handle_command(StateCommand::DeregisterNode { id: NodeId::new("n1") }, at(1));
    state.handle_command(StateCommand::DeregisterNode { id: NodeId::new("n2") }, at(1));
    assert_eq!(status(&mut state, "n1"), NodeStatus::Unknown);
    assert_eq!(state.handle_command(StateCommand::GetNodes, at(0)).unwrap().len(), 1);
}

#[test]
fn lines_are_trimmed_and_blank_ones_skipped() {
    assert_eq!(line_payload("  {} \r\n"), Some("{}"));
    assert_eq!(line_payload(" \t\r\n"), None);
    assert_eq!(line_payload(""), None);
}

fn registered_addr(addr: &str) -> String {
    let message = NodeMessage::Register {
        id: NodeId::new("n1"),
        addr: addr.into(),
        resources: ResourceSpec::new(1, 1),
    };
    let step = handle_connection_event(ConnectionEvent::Message(message), "10.0.0.9", 4711);
    assert!(step.keep_open);
    match step.command {
        Some(StateCommand::RegisterNode { node }) => node.addr,
        other => panic!("unexpected {:?}", other),
    }
}

#[test]
fn registration_falls_back_to_the_peer_address() {
    assert_eq!(registered_addr("10.0.0.1:7001"), "10.0.0.1:7001");
    assert_eq!(registered_addr(""), "10.0.0.9:4711");
    assert_eq!(registered_addr("0.0.0.0:7001"), "10.0.0.9:4711");
}

#[test]
fn connection_ends_with_deregistration() {
    let leave = NodeMessage::Deregister { id: NodeId::new("n1") };
    let step = handle_connection_event(ConnectionEvent::Message(leave), "h", 1);
    assert!(!step.keep_open);
    assert!(matches!(step.command, Some(StateCommand::DeregisterNode { .. })));
    let step = handle_connection_event(ConnectionEvent::Garbled, "h", 1);
    assert!(step.keep_open && step.command.is_none());
    for event in [ConnectionEvent::Closed, ConnectionEvent::ReadFailed] {
        let step = handle_connection_event(event, "h", 1);
        assert!(!step.keep_open && step.command.is_none());
    }
}

#[test]
fn metrics_registry_creation() {
    let registry = MetricsRegistry::new();
    let output = registry.encode();
    assert!(output.contains("raft_heartbeat_latency_seconds"));
    assert!(output.contains("container_start_seconds"));
    assert!(output.contains("scheduler_placement_seconds"));
    assert!(output.contains("cgroup_memory_pressure_total"));
}

#[test]
fn record_histogram() {
    let registry = MetricsRegistry::new();
    registry.raft_heartbeat_latency.observe(0.005);
    registry.raft_heartbeat_latency.observe(0.010);

    let output = registry.encode();
    assert!(output.contains("raft_heartbeat_latency_seconds"));
    assert!(output.contains("raft_heartbeat_latency_seconds_count 2"));
    assert!(output.contains("raft_heartbeat_latency_seconds_bucket{le=\"0.001\"} 0"));
    assert!(output.contains("raft_heartbeat_latency_seconds_bucket{le=\"0.008\"} 1"));
    assert!(output.contains("raft_heartbeat_latency_seconds_bucket{le=\"2.048\"} 2"));
}

#[test]
fn increment_counter() {
    let registry = MetricsRegistry::new();
    registry.cgroup_memory_pressure.inc();
    registry.cgroup_memory_pressure.inc();

    let output = registry.encode();
    assert!(output.contains("cgroup_memory_pressure_total"));
    assert!(output.contains("\ncgroup_memory_pressure_total 2\n"));
    assert!(!output.contains("_total_total"));
}

#[test]
fn set_gauge() {
    let registry = MetricsRegistry::new();
    registry.raft_term.set(42);
    registry.raft_role.set(2);

    let output = registry.encode();
    assert!(output.contains("raft_term"));
    assert!(output.contains("raft_role"));
    assert!(output.contains("\nraft_term 42\n"));
    assert!(output.contains("\nraft_role 2\n"));
}

#[test]
fn every_metric_has_a_section() {
    let output = MetricsRegistry::default().encode();
    let sections = [
        "# HELP raft_heartbeat_latency_seconds Raft leader heartbeat round-trip latency in seconds.\n\
         # TYPE raft_heartbeat_latency_seconds histogram\nraft_heartbeat_latency_seconds_sum ",
        "# HELP container_start_seconds Time from scheduling to container running in seconds.\n\
         # TYPE container_start_seconds histogram\ncontainer_start_seconds_sum ",
        "# HELP scheduler_placement_seconds Scheduler placement decision latency in seconds.\n\
         # TYPE scheduler_placement_seconds histogram\nscheduler_placement_seconds_sum ",
        "# HELP cgroup_memory_pressure Number of cgroup memory pressure events.\n\
         # TYPE cgroup_memory_pressure counter\ncgroup_memory_pressure_total ",
        "# HELP raft_term Current Raft consensus term.\n# TYPE raft_term gauge\nraft_term ",
        "# HELP raft_role Current Raft role (0=follower, 1=candidate, 2=leader).\n\
         # TYPE raft_role gauge\nraft_role ",
    ];
    assert!(output.starts_with(sections[0]));
    let mut from = 0;
    for section in sections {
        from += output[from..].find(section).expect("section");
    }
    assert!(output.ends_with("\n# EOF\n"));
}

#[test]
fn role_gauge_values() {
    assert_eq!(role_value(Role::Follower), 0);
    assert_eq!(role_value(Role::Candidate), 1);
    assert_eq!(role_value(Role::Leader), 2);
}

#[test]
fn handle_metrics_endpoint() {
    let registry = MetricsRegistry::new();
    let body = registry.encode();
    assert!(!body.is_empty());
    assert_eq!(route("/metrics"), Route::Metrics);
    let r = handle_request("/metrics", &registry);
    assert_eq!(r.status, 200);
    assert_eq!(r.content_type.as_deref(), Some("text/plain; version=0.0.4; charset=utf-8"));
    assert_eq!(r.body, body);
    let r = handle_request("/health", &registry);
    assert_eq!((r.status, r.content_type.is_none(), r.body.as_str()), (200, true, "ok"));
    let r = handle_request("/metrics/", &registry);
    assert_eq!((r.status, r.content_type.is_none(), r.body.as_str()), (404, true, "not found"));
    assert_eq!(reply(Route::Metrics, "text".to_string()).body, "text");
}

#[test]
fn cli_output() {
    let lines = handle_node(NodeCommand::Start {
        id: "node-1".into(),
        addr: "127.0.0.1:7001".into(),
        cpu: 2000,
        memory: 4096,
    });
    assert_eq!(lines.len(), 3);
    assert_eq!(lines[1], "  cargo run -p leviathan-node -- --id node-1 --addr 127.0.0.1:7001");
    assert_eq!(lines[2], "  Node resources: 2000m CPU / 4096Mi");
    assert_eq!(handle_node(NodeCommand::List).len(), 2);
    let lines = handle_container(ContainerCommand::Run { image: "nginx".into(), name: "web".into() });
    assert!(lines[0].ends_with("container run  image=nginx  name=web"));
    assert!(handle_container(ContainerCommand::List)[0].ends_with("container list"));
    assert_eq!(
        handle_cluster(ClusterCommand::Version, "0.1.0", "leviathan-cli"),
        vec!["leviathan 0.1.0 (leviathan-cli)".to_string()]
    );
    assert!(handle_cluster(ClusterCommand::Status, "0.1.0", "x")[0].ends_with("cluster status"));
}

#[test]
fn verbosity_selects_the_log_level() {
    let levels: Vec<&str> = [0u8, 1, 2, 3, 255].iter().map(|v| log_level(*v)).collect();
    assert_eq!(levels, vec!["warn", "info", "debug", "trace", "trace"]);
}
