//! The node service of the control plane: requests, replies and the commands that
//! requests amount to.

use vstd::prelude::*;
use vstd::string::*;

use crate::model::node::{
    Heartbeat, HeartbeatView, Node, NodeId, NodeStatus, NodeView, Timestamp,
};
use crate::model::resources::ResourceSpec;
use crate::text::owned;

verus! {

/// Resources on the wire.
#[derive(Debug, Clone, Copy, PartialEq, Eq, Structural)]
pub struct ResourceInfo {
    /// CPU in millicores.
    pub cpu_millicores: u64,
    /// Memory in mebibytes.
    pub memory_mib: u64,
}

/// A node on the wire.
#[derive(Debug)]
pub struct NodeInfo {
    /// Node ID.
    pub id: String,
    /// Address.
    pub addr: String,
    /// Name of the status.
    pub status: String,
    /// Capacity.
    pub resources: Option<ResourceInfo>,
}

/// A request to register a node.
#[derive(Debug)]
pub struct RegisterNodeRequest {
    /// Node ID.
    pub node_id: String,
    /// Address.
    pub addr: String,
    /// Capacity.
    pub resources: Option<ResourceInfo>,
}

/// The reply to a registration.
#[derive(Debug)]
pub struct RegisterNodeResponse {
    /// Whether the node was accepted.
    pub accepted: bool,
    /// Human-readable message.
    pub message: String,
}

/// A heartbeat.
#[derive(Debug)]
pub struct HeartbeatRequest {
    /// Node ID.
    pub node_id: String,
    /// Name of the status.
    pub status: String,
    /// Available resources.
    pub resources: Option<ResourceInfo>,
    /// When the heartbeat was generated, as RFC 3339 text.
    pub timestamp: String,
}

/// The reply to a heartbeat.
#[derive(Debug, Clone, Copy, PartialEq, Eq, Structural)]
pub struct HeartbeatResponse {
    /// Whether the heartbeat was recorded.
    pub acknowledged: bool,
}

/// A request to deregister a node.
#[derive(Debug)]
pub struct DeregisterNodeRequest {
    /// Node ID.
    pub node_id: String,
}

/// The reply to a deregistration.
#[derive(Debug, Clone, Copy, PartialEq, Eq, Structural)]
pub struct DeregisterNodeResponse {
    /// Whether the node was deregistered.
    pub acknowledged: bool,
}

/// The reply to a request for all nodes.
#[derive(Debug)]
pub struct ListNodesResponse {
    /// The registered nodes.
    pub nodes: Vec<NodeInfo>,
}

/// Commands that the service sends to the cluster state.
#[derive(Debug)]
pub enum GrpcStateCommand {
    /// Register a new node.
    RegisterNode {
        /// The node to register.
        node: Node,
    },
    /// Record a heartbeat.
    RecordHeartbeat {
        /// The heartbeat data.
        heartbeat: Heartbeat,
    },
    /// Deregister a node.
    DeregisterNode {
        /// ID of the node.
        id: NodeId,
    },
    /// Retrieve all registered nodes.
    GetNodes,
}

/// The resources of an optional description; the default if there is none.
pub open spec fn resources_or_default(info: Option<ResourceInfo>) -> ResourceSpec {
    match info {
        Some(info) => ResourceSpec {
            cpu_millicores: info.cpu_millicores,
            memory_mib: info.memory_mib,
        },
        None => ResourceSpec { cpu_millicores: 1000, memory_mib: 512 },
    }
}

/// The status of a name; unknown if the name is.
pub open spec fn status_of(name: Seq<char>) -> NodeStatus {
    if name == "Ready"@ {
        NodeStatus::Ready
    } else if name == "NotReady"@ {
        NodeStatus::NotReady
    } else {
        NodeStatus::Unknown
    }
}

/// Convert resources from the wire.
pub fn resource_info_to_spec(info: ResourceInfo) -> (r: ResourceSpec)
    ensures
        r.cpu_millicores == info.cpu_millicores,
        r.memory_mib == info.memory_mib,
{
    ResourceSpec::new(info.cpu_millicores, info.memory_mib)
}

/// Convert resources for the wire.
pub fn spec_to_resource_info(resources: &ResourceSpec) -> (r: ResourceInfo)
    ensures
        r.cpu_millicores == resources.cpu_millicores,
        r.memory_mib == resources.memory_mib,
{
    ResourceInfo { cpu_millicores: resources.cpu_millicores, memory_mib: resources.memory_mib }
}

/// A node and its form on the wire say the same.
pub open spec fn describes(info: NodeInfo, node: NodeView) -> bool {
    &&& info.id@ == node.id
    &&& info.addr@ == node.addr
    &&& info.status@ == node.status.text()
    &&& info.resources == Some(
        ResourceInfo {
            cpu_millicores: node.resources.cpu_millicores,
            memory_mib: node.resources.memory_mib,
        },
    )
}

/// Convert a node for the wire.
pub fn node_to_proto(node: &Node) -> (info: NodeInfo)
    ensures
        describes(info, node@),
{
    NodeInfo {
        id: node.id.to_string(),
        addr: node.addr.clone(),
        status: node.status.to_string(),
        resources: Some(spec_to_resource_info(&node.resources)),
    }
}

/// Parse the name of a status. Names that are not recognised, which a peer of
/// another version may send, count as unknown.
pub fn parse_node_status(s: &str) -> (r: NodeStatus)
    ensures
        r == status_of(s@),
{
    let name = owned(s);
    if name == owned("Ready") {
        NodeStatus::Ready
    } else if name == owned("NotReady") {
        NodeStatus::NotReady
    } else {
        NodeStatus::Unknown
    }
}

/// The status that is sent by name is received.
pub proof fn status_round_trip(status: NodeStatus)
    ensures
        status_of(status.text()) == status,
{
    reveal_strlit("Ready");
    reveal_strlit("NotReady");
    reveal_strlit("Unknown");
    assert("Ready"@.len() == 5 && "NotReady"@.len() == 8 && "Unknown"@.len() == 7);
}

/// A node that is sent is received as it was: its description tells its ID, address,
/// status and resources.
pub proof fn node_round_trip(info: NodeInfo, node: NodeView)
    requires
        describes(info, node),
    ensures
        node == (NodeView {
            id: info.id@,
            addr: info.addr@,
            status: status_of(info.status@),
            resources: resources_or_default(info.resources),
        }),
{
    status_round_trip(node.status);
}

fn received_resources(info: Option<ResourceInfo>) -> (r: ResourceSpec)
    ensures
        r == resources_or_default(info),
{
    match info {
        Some(info) => resource_info_to_spec(info),
        None => ResourceSpec::default(),
    }
}

/// The command for a registration and the reply once it has been passed on.
pub fn register_node(req: RegisterNodeRequest) -> (r: (GrpcStateCommand, RegisterNodeResponse))
    ensures
        r.0 is RegisterNode,
        r.0->node@ == (NodeView {
            id: req.node_id@,
            addr: req.addr@,
            status: NodeStatus::Unknown,
            resources: resources_or_default(req.resources),
        }),
        r.1.accepted,
        r.1.message@ == "node '"@ + req.node_id@ + "' registered"@,
{
    let resources = received_resources(req.resources);
    let mut message = owned("node '");
    message.append(req.node_id.as_str());
    message.append("' registered");
    let node = Node::new(req.node_id, req.addr, resources);
    (GrpcStateCommand::RegisterNode { node }, RegisterNodeResponse { accepted: true, message })
}

/// The command for a heartbeat and the reply once it has been passed on. A time
/// that cannot be read counts as now.
pub fn send_heartbeat(req: HeartbeatRequest, now: Timestamp) -> (r: (
    GrpcStateCommand,
    HeartbeatResponse,
))
    ensures
        r.0 is RecordHeartbeat,
        r.0->heartbeat@ == (HeartbeatView {
            node_id: req.node_id@,
            status: status_of(req.status@),
            resources: resources_or_default(req.resources),
            timestamp: match Timestamp::from_rfc3339(req.timestamp@) {
                Some(t) => t,
                None => now,
            },
        }),
        r.1.acknowledged,
{
    let resources = received_resources(req.resources);
    let status = parse_node_status(req.status.as_str());
    let timestamp = match Timestamp::parse(req.timestamp.as_str()) {
        Ok(t) => t,
        Err(_) => now,
    };
    let heartbeat = Heartbeat { node_id: NodeId::new(req.node_id), status, resources, timestamp };
    (
        GrpcStateCommand::RecordHeartbeat { heartbeat },
        HeartbeatResponse { acknowledged: true },
    )
}

/// The command for a deregistration and the reply once it has been passed on.
pub fn deregister_node(req: DeregisterNodeRequest) -> (r: (
    GrpcStateCommand,
    DeregisterNodeResponse,
))
    ensures
        r.0 is DeregisterNode,
        r.0->id@ == req.node_id@,
        r.1.acknowledged,
{
    (
        GrpcStateCommand::DeregisterNode { id: NodeId::new(req.node_id) },
        DeregisterNodeResponse { acknowledged: true },
    )
}

/// The reply to a request for all nodes.
pub fn list_nodes(nodes: &Vec<Node>) -> (r: ListNodesResponse)
    ensures
        r.nodes@.len() == nodes@.len(),
        forall|i: int| 0 <= i < nodes@.len() ==> describes(#[trigger] r.nodes@[i], nodes@[i]@),
{
    let mut infos: Vec<NodeInfo> = Vec::new();
    let mut i: usize = 0;
    while i < nodes.len()
        invariant
            i <= nodes@.len(),
            infos@.len() == i,
            forall|k: int| 0 <= k < i ==> describes(#[trigger] infos@[k], nodes@[k]@),
        decreases nodes@.len() - i,
    {
        infos.push(node_to_proto(&nodes[i]));
        i += 1;
    }
    ListNodesResponse { nodes: infos }
}

/// The reply to a request, or the status message where the command could not be
/// passed on.
pub fn delivered<R>(reply: R, sent: bool) -> (r: Result<R, String>)
    ensures
        match r {
            Ok(x) => sent && x == reply,
            Err(e) => !sent && e@ == "state actor unavailable"@,
        },
{
    if sent {
        Ok(reply)
    } else {
        Err(owned("state actor unavailable"))
    }
}

/// The nodes that the cluster state answered with, or the status message where it
/// did not answer.
pub fn answered(nodes: Option<Vec<Node>>) -> (r: Result<ListNodesResponse, String>)
    ensures
        match (nodes, r) {
            (Some(list), Ok(response)) => response.nodes@.len() == list@.len() && forall|i: int|
                0 <= i < list@.len() ==> describes(#[trigger] response.nodes@[i], list@[i]@),
            (None, Err(e)) => e@ == "state actor dropped response channel"@,
            _ => false,
        },
{
    match nodes {
        Some(list) => Ok(list_nodes(&list)),
        None => Err(owned("state actor dropped response channel")),
    }
}

/// The request that registers a node.
pub fn register_request(
    node_id: &NodeId,
    addr: &str,
    resources: &ResourceSpec,
) -> (req: RegisterNodeRequest)
    ensures
        req.node_id@ == node_id@,
        req.addr@ == addr@,
        req.resources is Some,
        resources_or_default(req.resources) == *resources,
{
    RegisterNodeRequest {
        node_id: node_id.to_string(),
        addr: owned(addr),
        resources: Some(spec_to_resource_info(resources)),
    }
}

/// The request that reports a ready node.
pub fn heartbeat_request(
    node_id: &NodeId,
    resources: &ResourceSpec,
    timestamp: String,
) -> (req: HeartbeatRequest)
    ensures
        req.node_id@ == node_id@,
        req.status@ == "Ready"@,
        req.resources is Some,
        resources_or_default(req.resources) == *resources,
        req.timestamp == timestamp,
{
    HeartbeatRequest {
        node_id: node_id.to_string(),
        status: owned("Ready"),
        resources: Some(spec_to_resource_info(resources)),
        timestamp,
    }
}

/// The request that deregisters a node.
pub fn deregister_request(node_id: &NodeId) -> (req: DeregisterNodeRequest)
    ensures
        req.node_id@ == node_id@,
{
    DeregisterNodeRequest { node_id: node_id.to_string() }
}

/// Resources on the wire are taken as they are; where a request gives none, the node
/// counts as having one CPU and 512 MiB.
pub proof fn given_resources_are_taken_over(info: ResourceInfo)
    ensures
        resources_or_default(Some(info)).cpu_millicores == info.cpu_millicores,
        resources_or_default(Some(info)).memory_mib == info.memory_mib,
        resources_or_default(None).cpu_millicores == 1000,
        resources_or_default(None).memory_mib == 512,
{
}

/// A name stands for the status that is rendered so; any other name for an unknown status.
pub proof fn statuses_go_by_their_name(name: Seq<char>)
    ensures
        status_of(name) is Ready <==> name == "Ready"@,
        status_of(name) is NotReady <==> name == "NotReady"@,
        NodeStatus::Ready.text() == "Ready"@,
        NodeStatus::NotReady.text() == "NotReady"@,
        NodeStatus::Unknown.text() == "Unknown"@,
{
    reveal_strlit("Ready");
    reveal_strlit("NotReady");
    assert("Ready"@.len() == 5 && "NotReady"@.len() == 8);
}

/// A node and its form on the wire agree in everything that either tells.
pub proof fn nodes_are_described_in_full(info: NodeInfo, node: NodeView)
    requires
        describes(info, node),
    ensures
        info.id@ == node.id,
        info.addr@ == node.addr,
        info.status@ == "Ready"@ <==> node.status == NodeStatus::Ready,
        info.status@ == "NotReady"@ <==> node.status == NodeStatus::NotReady,
        info.resources is Some,
        info.resources->Some_0.cpu_millicores == node.resources.cpu_millicores,
        info.resources->Some_0.memory_mib == node.resources.memory_mib,
{
    reveal_strlit("Ready");
    reveal_strlit("NotReady");
    reveal_strlit("Unknown");
    assert("Ready"@.len() == 5 && "NotReady"@.len() == 8 && "Unknown"@.len() == 7);
}

/// A node that asks to be registered is registered as what it is: its ID, its address and
/// its resources arrive as they were sent, and it is told that it was accepted.
pub proof fn registrations_arrive_as_sent(
    id: &NodeId,
    addr: &str,
    resources: &ResourceSpec,
    req: RegisterNodeRequest,
    r: (GrpcStateCommand, RegisterNodeResponse),
)
    requires
        call_ensures(register_request, (id, addr, resources), req),
        call_ensures(register_node, (req,), r),
    ensures
        r.0 is RegisterNode,
        r.0->node.id@ == id@,
        r.0->node.addr@ == addr@,
        r.0->node.resources == *resources,
        r.1.accepted,
{
    assert(r.0->node@.addr == addr@);
}

/// A heartbeat arrives as it was sent, from a ready node, with its resources; its time is
/// the one it was sent with, or the time of arrival where that cannot be read.
pub proof fn heartbeats_arrive_as_sent(
    id: &NodeId,
    resources: &ResourceSpec,
    time: String,
    now: Timestamp,
    req: HeartbeatRequest,
    r: (GrpcStateCommand, HeartbeatResponse),
)
    requires
        call_ensures(heartbeat_request, (id, resources, time), req),
        call_ensures(send_heartbeat, (req, now), r),
    ensures
        r.0 is RecordHeartbeat,
        r.0->heartbeat@.node_id == id@,
        r.0->heartbeat@.status == NodeStatus::Ready,
        r.0->heartbeat@.resources == *resources,
        Timestamp::from_rfc3339(time@) matches Some(t) ==> r.0->heartbeat@.timestamp == t,
        Timestamp::from_rfc3339(time@) is None ==> r.0->heartbeat@.timestamp == now,
        r.1.acknowledged,
{
}

/// A node that asks to be deregistered is deregistered under its own ID.
pub proof fn deregistrations_arrive_as_sent(
    id: &NodeId,
    req: DeregisterNodeRequest,
    r: (GrpcStateCommand, DeregisterNodeResponse),
)
    requires
        call_ensures(deregister_request, (id,), req),
        call_ensures(deregister_node, (req,), r),
    ensures
        r.0 is DeregisterNode,
        r.0->id@ == id@,
        r.1.acknowledged,
{
}

/// The reply to a request for all nodes tells of each, in order, who it is, where it is and
/// what it has.
pub proof fn listed_nodes_are_told_in_full(nodes: &Vec<Node>, r: ListNodesResponse, i: int)
    requires
        call_ensures(list_nodes, (nodes,), r),
        0 <= i < nodes@.len(),
    ensures
        r.nodes@.len() == nodes@.len(),
        r.nodes@[i].id@ == nodes@[i].id@,
        r.nodes@[i].addr@ == nodes@[i].addr@,
        r.nodes@[i].status@ == "Ready"@ <==> nodes@[i].status == NodeStatus::Ready,
        r.nodes@[i].resources is Some,
        r.nodes@[i].resources->Some_0.cpu_millicores == nodes@[i].resources.cpu_millicores,
        r.nodes@[i].resources->Some_0.memory_mib == nodes@[i].resources.memory_mib,
{
    assert(describes(r.nodes@[i], nodes@[i]@));
    nodes_are_described_in_full(r.nodes@[i], nodes@[i]@);
}

} // verus!
