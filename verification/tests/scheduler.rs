//! Tests of the placement strategies.

use leviathan::model::container::Container;
use leviathan::model::node::{Node, NodeId, NodeStatus};
use leviathan::model::resources::ResourceSpec;
use leviathan::scheduler::{
    BestFitScheduler, FirstFitDecreasingScheduler, FirstFitScheduler, Scheduler,
    SchedulingDecision, Scorer,
};

fn make_node(id: &str, cpu: u64, mem: u64, status: NodeStatus) -> Node {
    let mut node = Node::new(id, "127.0.0.1:7000", ResourceSpec::new(cpu, mem));
    node.status = status;
    node
}

fn make_container(name: &str, cpu: u64, mem: u64) -> Container {
    Container::new(
        format!("id-{name}"),
        name,
        "ubuntu:22.04",
        ResourceSpec::new(cpu, mem),
    )
}

#[test]
fn first_fit_selects_first_viable_node() {
    let nodes = vec![
        make_node("node-1", 1000, 1024, NodeStatus::Ready),
        make_node("node-2", 2000, 4096, NodeStatus::Ready),
    ];
    let container = make_container("app", 500, 512);
    let result = FirstFitScheduler.select_node(&nodes, &container).unwrap();
    assert_eq!(result, NodeId::new("node-1"));
}

#[test]
fn first_fit_skips_not_ready_nodes() {
    let nodes = vec![
        make_node("node-1", 4000, 8192, NodeStatus::NotReady),
        make_node("node-2", 2000, 4096, NodeStatus::Ready),
    ];
    let container = make_container("app", 500, 512);
    let result = FirstFitScheduler.select_node(&nodes, &container).unwrap();
    assert_eq!(result, NodeId::new("node-2"));
}

#[test]
fn first_fit_returns_error_when_no_capacity() {
    let nodes = vec![make_node("node-1", 100, 128, NodeStatus::Ready)];
    let container = make_container("big-app", 4000, 8192);
    let result = FirstFitScheduler.select_node(&nodes, &container);
    assert!(result.is_err());
}

#[test]
fn first_fit_returns_error_on_empty_nodes() {
    let container = make_container("app", 500, 512);
    let result = FirstFitScheduler.select_node(&[], &container);
    assert!(result.is_err());
}

#[test]
fn refusal_names_the_container() {
    let container = make_container("app", 500, 512);
    let e = FirstFitScheduler.select_node(&[], &container).unwrap_err();
    assert_eq!(
        e.to_string(),
        "no schedulable node available: no Ready node can satisfy 500m CPU / 512Mi for container 'app'"
    );
}

#[test]
fn best_fit_selects_tightest_node() {
    let nodes = vec![
        make_node("big-node", 8000, 16384, NodeStatus::Ready),
        make_node("small-node", 1000, 1024, NodeStatus::Ready),
        make_node("medium-node", 2000, 2048, NodeStatus::Ready),
    ];
    let container = make_container("app", 500, 512);
    let result = BestFitScheduler.select_node(&nodes, &container).unwrap();
    assert_eq!(result, NodeId::new("small-node"));
}

#[test]
fn best_fit_skips_insufficient_nodes() {
    let nodes = vec![
        make_node("tiny", 100, 128, NodeStatus::Ready),
        make_node("adequate", 2000, 2048, NodeStatus::Ready),
    ];
    let container = make_container("app", 500, 512);
    let result = BestFitScheduler.select_node(&nodes, &container).unwrap();
    assert_eq!(result, NodeId::new("adequate"));
}

#[test]
fn best_fit_returns_error_when_all_insufficient() {
    let nodes = vec![
        make_node("tiny-1", 100, 128, NodeStatus::Ready),
        make_node("tiny-2", 200, 256, NodeStatus::Ready),
    ];
    let container = make_container("big-app", 4000, 8192);
    let result = BestFitScheduler.select_node(&nodes, &container);
    assert!(result.is_err());
}

#[test]
fn ffd_selects_tightest_fit() {
    let nodes = vec![
        make_node("big-node", 8000, 16384, NodeStatus::Ready),
        make_node("small-node", 1000, 1024, NodeStatus::Ready),
        make_node("medium-node", 2000, 2048, NodeStatus::Ready),
    ];
    let container = make_container("app", 500, 512);
    let scheduler = FirstFitDecreasingScheduler::with_default_scorer();
    let result = scheduler.select_node(&nodes, &container).unwrap();
    assert_eq!(result, NodeId::new("small-node"));
}

struct PreferBigNodes;

impl Scorer for PreferBigNodes {
    fn score(&self, node: &Node, _container: &Container) -> u64 {
        node.resources.cpu_millicores
    }

    fn name(&self) -> String {
        "prefer-big-nodes".into()
    }
}

#[test]
fn ffd_with_custom_scorer() {
    let nodes = vec![
        make_node("big-node", 8000, 16384, NodeStatus::Ready),
        make_node("small-node", 1000, 1024, NodeStatus::Ready),
    ];
    let container = make_container("app", 500, 512);
    let scheduler = FirstFitDecreasingScheduler::new(PreferBigNodes);
    let result = scheduler.select_node(&nodes, &container).unwrap();
    assert_eq!(result, NodeId::new("big-node"));
    assert_eq!(scheduler.scorer.name(), "prefer-big-nodes");
}

#[test]
fn ffd_empty_nodes() {
    let scheduler = FirstFitDecreasingScheduler::with_default_scorer();
    let container = make_container("app", 500, 512);
    assert!(scheduler.select_node(&[], &container).is_err());
}

#[test]
fn ffd_weighs_cpu_and_memory_in_proportion() {
    // Left over: 1000 of 10000 millicores against 500 of 1000 MiB.
    let nodes = vec![
        make_node("memory-rich", 500, 1000, NodeStatus::Ready),
        make_node("cpu-rich", 1500, 500, NodeStatus::Ready),
        make_node("reference", 10000, 1000, NodeStatus::NotReady),
    ];
    let container = make_container("app", 500, 500);
    let scheduler = FirstFitDecreasingScheduler::with_default_scorer();
    let result = scheduler.select_node(&nodes, &container).unwrap();
    assert_eq!(result, NodeId::new("cpu-rich"));
    let best = BestFitScheduler.select_node(&nodes, &container).unwrap();
    assert_eq!(best, NodeId::new("memory-rich"));
}

#[test]
fn ffd_handles_the_largest_capacities() {
    let nodes = vec![
        make_node("full", u64::MAX, u64::MAX, NodeStatus::Ready),
        make_node("almost", u64::MAX - 1, u64::MAX, NodeStatus::Ready),
    ];
    let container = make_container("app", 0, 0);
    let scheduler = FirstFitDecreasingScheduler::with_default_scorer();
    let result = scheduler.select_node(&nodes, &container).unwrap();
    assert_eq!(result, NodeId::new("almost"));
}

#[test]
fn scheduling_decision_fields() {
    let decision = SchedulingDecision {
        container_id: "c-1".into(),
        node_id: "node-1".into(),
        timestamp_ms: 1234567890,
        resources: ResourceSpec::new(1000, 512),
    };
    let copy = decision.clone();
    assert_eq!(copy.container_id, "c-1");
    assert_eq!(copy.timestamp_ms, 1234567890);
}
