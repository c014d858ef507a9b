//! The control plane: the registry of nodes, and what a node connection does to
//! it.

use vstd::prelude::*;
use vstd::string::*;

use crate::collections::TextMap;
use crate::model::node::{
    Heartbeat, HeartbeatView, Node, NodeId, NodeMessage, NodeMessageView, NodeStatus, NodeView,
    Timestamp,
};
use crate::model::resources::ResourceSpec;
use crate::text::{
    contains_text, decimal, occurs_in, owned, push_decimal, trim, trimmed,
};

verus! {

/// Commands to the cluster state.
#[derive(Debug)]
pub enum StateCommand {
    /// Register a new node or update its address.
    RegisterNode {
        /// The node to register.
        node: Node,
    },
    /// Record a heartbeat received from a node.
    RecordHeartbeat {
        /// The heartbeat data.
        heartbeat: Heartbeat,
    },
    /// Mark a node as deregistered.
    DeregisterNode {
        /// ID of the node to deregister.
        id: NodeId,
    },
    /// Retrieve all registered nodes.
    GetNodes,
    /// Run liveness checks on all registered nodes.
    ReconcileLiveness {
        /// How long, in nanoseconds, a node can go without a heartbeat before being
        /// marked Unknown.
        grace_period: u128,
    },
}

/// A command, as the specification sees it.
#[verifier::ext_equal]
pub enum CommandView {
    RegisterNode { node: NodeView },
    RecordHeartbeat { heartbeat: HeartbeatView },
    DeregisterNode { id: Seq<char> },
    GetNodes,
    ReconcileLiveness { grace_period: u128 },
}

impl View for StateCommand {
    type V = CommandView;

    open spec fn view(&self) -> CommandView {
        match *self {
            StateCommand::RegisterNode { node } => CommandView::RegisterNode { node: node@ },
            StateCommand::RecordHeartbeat { heartbeat } => CommandView::RecordHeartbeat {
                heartbeat: heartbeat@,
            },
            StateCommand::DeregisterNode { id } => CommandView::DeregisterNode { id: id@ },
            StateCommand::GetNodes => CommandView::GetNodes,
            StateCommand::ReconcileLiveness { grace_period } => CommandView::ReconcileLiveness {
                grace_period,
            },
        }
    }
}

/// A registered node and when it was last seen.
#[derive(Debug)]
pub struct Member {
    /// The node.
    pub node: Node,
    /// When it was last seen.
    pub last_seen: Timestamp,
}

/// A member, as the specification sees it.
#[verifier::ext_equal]
pub struct MemberView {
    pub node: NodeView,
    pub last_seen: Timestamp,
}

impl View for Member {
    type V = MemberView;

    open spec fn view(&self) -> MemberView {
        MemberView { node: self.node@, last_seen: self.last_seen }
    }
}

/// The registry: members by node ID.
pub type Members = Map<Seq<char>, MemberView>;

/// A member with another status.
pub open spec fn with_status(m: MemberView, status: NodeStatus) -> MemberView {
    MemberView { node: NodeView { status, ..m.node }, ..m }
}

/// A ready member has gone without a heartbeat for longer than the grace period.
pub open spec fn overdue(m: MemberView, grace_period: u128, now: Timestamp) -> bool {
    m.node.status == NodeStatus::Ready && now.nanos_from(m.last_seen) > grace_period
}

/// A member after a liveness check.
pub open spec fn checked(m: MemberView, grace_period: u128, now: Timestamp) -> MemberView {
    if overdue(m, grace_period, now) {
        with_status(m, NodeStatus::Unknown)
    } else {
        m
    }
}

/// The registry after a command.
pub open spec fn after(state: Members, command: CommandView, now: Timestamp) -> Members {
    match command {
        // A registered node is ready and was seen now.
        CommandView::RegisterNode { node } => state.insert(
            node.id,
            MemberView { node: NodeView { status: NodeStatus::Ready, ..node }, last_seen: now },
        ),
        // A heartbeat keeps a node ready. One from an unknown node registers it.
        CommandView::RecordHeartbeat { heartbeat: hb } => if state.contains_key(hb.node_id) {
            let m = state[hb.node_id];
            state.insert(
                hb.node_id,
                MemberView {
                    node: NodeView {
                        status: NodeStatus::Ready,
                        resources: hb.resources,
                        ..m.node
                    },
                    last_seen: hb.timestamp,
                },
            )
        } else {
            state.insert(
                hb.node_id,
                MemberView {
                    node: NodeView {
                        id: hb.node_id,
                        addr: "unknown"@,
                        status: NodeStatus::Ready,
                        resources: hb.resources,
                    },
                    last_seen: now,
                },
            )
        },
        // A deregistered node stays listed as unknown.
        CommandView::DeregisterNode { id } => if state.contains_key(id) {
            state.insert(id, with_status(state[id], NodeStatus::Unknown))
        } else {
            state
        },
        CommandView::GetNodes => state,
        CommandView::ReconcileLiveness { grace_period } => state.map_values(
            |m: MemberView| checked(m, grace_period, now),
        ),
    }
}

/// Every member is listed under its own ID.
pub open spec fn consistent(state: Members) -> bool {
    forall|id: Seq<char>| #[trigger] state.contains_key(id) ==> state[id].node.id == id
}

/// Every command keeps the members listed under their own IDs.
pub proof fn commands_keep_ids(state: Members, command: CommandView, now: Timestamp)
    requires
        consistent(state),
    ensures
        consistent(after(state, command, now)),
{
}

/// No command makes the registry forget a node.
pub proof fn nodes_are_never_forgotten(state: Members, command: CommandView, now: Timestamp)
    ensures
        state.dom().subset_of(after(state, command, now).dom()),
{
}

/// A node whose heartbeat was recorded stays ready through a liveness check until
/// the grace period after the heartbeat's time is over, and is unknown from then
/// on. It need not have been registered before, if the heartbeat's time is the
/// time at which it is recorded.
pub proof fn heartbeat_keeps_alive(
    state: Members,
    hb: HeartbeatView,
    grace_period: u128,
    recorded: Timestamp,
    now: Timestamp,
)
    requires
        state.contains_key(hb.node_id) || recorded == hb.timestamp,
    ensures
        ({
            let one = after(state, CommandView::RecordHeartbeat { heartbeat: hb }, recorded);
            let two = after(one, CommandView::ReconcileLiveness { grace_period }, now);
            two[hb.node_id].node.status == (if now.nanos_from(hb.timestamp) > grace_period {
                NodeStatus::Unknown
            } else {
                NodeStatus::Ready
            })
        }),
{
}

/// A liveness check changes nothing but statuses, and those only from ready to
/// unknown.
pub proof fn checks_only_mark_unknown(
    state: Members,
    grace_period: u128,
    now: Timestamp,
    id: Seq<char>,
)
    requires
        state.contains_key(id),
    ensures
        ({
            let m = after(state, CommandView::ReconcileLiveness { grace_period }, now)[id];
            m == state[id] || (state[id].node.status == NodeStatus::Ready && m == with_status(
                state[id],
                NodeStatus::Unknown,
            ))
        }),
{
}

/// A deregistered node is not brought back by liveness checks.
pub proof fn deregistered_stays_unknown(
    state: Members,
    id: Seq<char>,
    grace_period: u128,
    t1: Timestamp,
    t2: Timestamp,
)
    requires
        state.contains_key(id),
    ensures
        ({
            let one = after(state, CommandView::DeregisterNode { id }, t1);
            let two = after(one, CommandView::ReconcileLiveness { grace_period }, t2);
            two[id].node.status == NodeStatus::Unknown
        }),
{
}

/// The cluster state: all registered nodes.
#[derive(Debug)]
pub struct ClusterState {
    /// Members by node ID.
    pub nodes: TextMap<Member>,
}

impl View for ClusterState {
    type V = Members;

    open spec fn view(&self) -> Members {
        self.nodes@.map_values(|m: Member| m@)
    }
}

impl ClusterState {
    /// An empty registry.
    pub fn new() -> (s: Self)
        ensures
            s@ == Map::<Seq<char>, MemberView>::empty(),
    {
        let s = ClusterState { nodes: TextMap::new() };
        assert(s@ =~= Map::empty());
        s
    }

    /// Put a member under an ID.
    fn put(&mut self, id: String, member: Member)
        ensures
            final(self)@ == old(self)@.insert(id@, member@),
    {
        self.nodes.insert(id, member);
        assert(self@ =~= old(self)@.insert(id@, member@));
    }

    /// The registered nodes, in the order in which they first appeared.
    pub fn list(&self) -> (r: Vec<Node>)
        ensures
            r@.len() == self.nodes.order().len(),
            r@.len() == self@.dom().len(),
            forall|i: int|
                0 <= i < r@.len() ==> (#[trigger] r@[i])@ == self@[self.nodes.order()[i]].node,
            self.nodes.order().no_duplicates(),
            forall|k: Seq<char>| #[trigger]
                self@.contains_key(k) <==> self.nodes.order().contains(k),
    {
        let n: usize = self.nodes.len();
        assert(self@.dom() =~= self.nodes@.dom());
        assert forall|k: Seq<char>| #[trigger] self@.contains_key(k) <==> self.nodes.order().contains(
            k,
        ) by {
            assert(self@.contains_key(k) == self.nodes@.contains_key(k));
        }
        let mut r: Vec<Node> = Vec::new();
        let mut i: usize = 0;
        while i < n
            invariant
                i <= n,
                n == self.nodes.order().len(),
                r@.len() == i,
                forall|j: int|
                    0 <= j < i ==> (#[trigger] r@[j])@ == self@[self.nodes.order()[j]].node,
            decreases n - i,
        {
            let (_, member) = self.nodes.entry(i);
            r.push(member.node.clone());
            i += 1;
        }
        r
    }

    /// Mark every ready node that has gone without a heartbeat for longer than the
    /// grace period.
    fn reconcile(&mut self, grace_period: u128, now: Timestamp)
        ensures
            final(self)@ == after(
                old(self)@,
                CommandView::ReconcileLiveness { grace_period },
                now,
            ),
    {
        let ghost before = self@;
        let ghost order = self.nodes.order();
        let n: usize = self.nodes.len();
        let mut i: usize = 0;
        proof {
            assert forall|k: Seq<char>| #[trigger] self@.contains_key(k) implies order.contains(
                k,
            ) by {
                assert(self.nodes@.contains_key(k));
            }
            assert forall|j: int| 0 <= j < n implies self@.contains_key(#[trigger] order[j]) by {
                assert(order.contains(order[j]));
                assert(self.nodes@.contains_key(order[j]));
            }
        }
        while i < n
            invariant
                i <= n,
                n == order.len(),
                order == self.nodes.order(),
                order.no_duplicates(),
                self@.dom() == before.dom(),
                forall|j: int| 0 <= j < n ==> before.contains_key(#[trigger] order[j]),
                forall|j: int|
                    0 <= j < i ==> self@[#[trigger] order[j]] == checked(
                        before[order[j]],
                        grace_period,
                        now,
                    ),
                forall|j: int| i <= j < n ==> self@[#[trigger] order[j]] == before[order[j]],
            decreases n - i,
        {
            let (key, member) = self.nodes.entry(i);
            assert(self@[order[i as int]] == member@);
            if member.node.status == NodeStatus::Ready && now.nanos_since(&member.last_seen)
                > grace_period {
                let mut node = member.node.clone();
                node.status = NodeStatus::Unknown;
                let marked = Member { node, last_seen: member.last_seen };
                let id = key.clone();
                assert(marked@ == checked(before[order[i as int]], grace_period, now));
                assert(self.nodes@.contains_key(id@));
                self.put_known(id, marked);
                assert(self@.dom() =~= before.dom());
            }
            i += 1;
        }
        proof {
            let want = after(before, CommandView::ReconcileLiveness { grace_period }, now);
            assert forall|k: Seq<char>| #[trigger] self@.contains_key(k) implies self@[k]
                == want[k] by {
                assert(order.contains(k));
                let j = choose|j: int| 0 <= j < order.len() && order[j] == k;
                assert(self@[order[j]] == checked(before[order[j]], grace_period, now));
            }
            assert(self@ =~= want);
        }
    }

    /// Replace the member under a known ID. The order stays.
    fn put_known(&mut self, id: String, member: Member)
        requires
            old(self).nodes@.contains_key(id@),
        ensures
            final(self)@ == old(self)@.insert(id@, member@),
            final(self).nodes.order() == old(self).nodes.order(),
    {
        self.nodes.insert(id, member);
        assert(self@ =~= old(self)@.insert(id@, member@));
    }

    /// Carry out a command. A request for the nodes is answered with the list.
    pub fn handle_command(&mut self, command: StateCommand, now: Timestamp) -> (r: Option<Vec<Node>>)
        ensures
            final(self)@ == after(old(self)@, command@, now),
            match r {
                None => command !is GetNodes,
                Some(list) => {
                    &&& command is GetNodes
                    &&& list@.len() == old(self)@.dom().len()
                    &&& forall|i: int|
                        0 <= i < list@.len() ==> (#[trigger] list@[i])@ == old(
                            self,
                        )@[old(self).nodes.order()[i]].node
                    &&& old(self).nodes.order().no_duplicates()
                    &&& old(self).nodes.order().len() == list@.len()
                    &&& forall|k: Seq<char>| #[trigger]
                        old(self)@.contains_key(k) <==> old(self).nodes.order().contains(k)
                },
            },
    {
        match command {
            StateCommand::RegisterNode { node } => {
                let mut registered = node;
                registered.status = NodeStatus::Ready;
                let id = registered.id.to_string();
                self.put(id, Member { node: registered, last_seen: now });
                None
            },
            StateCommand::RecordHeartbeat { heartbeat } => {
                let id = heartbeat.node_id.to_string();
                let member = match self.nodes.get(id.as_str()) {
                    Some(member) => {
                        let mut node = member.node.clone();
                        node.status = NodeStatus::Ready;
                        node.resources = heartbeat.resources;
                        Member { node, last_seen: heartbeat.timestamp }
                    },
                    None => Member {
                        node: Node {
                            id: heartbeat.node_id,
                            addr: owned("unknown"),
                            status: NodeStatus::Ready,
                            resources: heartbeat.resources,
                        },
                        last_seen: now,
                    },
                };
                assert(self@.contains_key(id@) == self.nodes@.contains_key(id@));
                self.put(id, member);
                None
            },
            StateCommand::DeregisterNode { id } => {
                assert(self@.contains_key(id@) == self.nodes@.contains_key(id@));
                let marked = match self.nodes.get(id.as_str()) {
                    Some(member) => {
                        let mut node = member.node.clone();
                        node.status = NodeStatus::Unknown;
                        Some(Member { node, last_seen: member.last_seen })
                    },
                    None => None,
                };
                match marked {
                    Some(member) => self.put(id.to_string(), member),
                    None => {},
                }
                None
            },
            StateCommand::GetNodes => Some(self.list()),
            StateCommand::ReconcileLiveness { grace_period } => {
                self.reconcile(grace_period, now);
                None
            },
        }
    }
}

/// The content of a line from a node: nothing if the line is blank.
pub fn line_payload(line: &str) -> (r: Option<&str>)
    ensures
        match r {
            Some(s) => s@ == trim(line@) && s@.len() > 0,
            None => trim(line@).len() == 0,
        },
{
    let s = trimmed(line);
    if s.unicode_len() == 0 {
        None
    } else {
        Some(s)
    }
}

/// What happens on a node's connection.
#[derive(Debug)]
pub enum ConnectionEvent {
    /// The node closed the connection.
    Closed,
    /// Reading from the connection failed.
    ReadFailed,
    /// A line arrived that is no message.
    Garbled,
    /// A message arrived.
    Message(NodeMessage),
}

/// What follows from an event on a connection.
#[derive(Debug)]
pub struct ConnectionStep {
    /// The command to pass on.
    pub command: Option<StateCommand>,
    /// Whether to go on reading.
    pub keep_open: bool,
}

/// The address under which a node is registered: its own, or the peer's where it
/// gave none or the unspecified one.
pub open spec fn effective_addr(addr: Seq<char>, peer_ip: Seq<char>, peer_port: u16) -> Seq<char> {
    if addr.len() == 0 || occurs_in("0.0.0.0"@, addr) {
        peer_ip + ":"@ + decimal(peer_port as nat)
    } else {
        addr
    }
}

/// The command that a message amounts to.
pub open spec fn command_of(
    message: NodeMessageView,
    peer_ip: Seq<char>,
    peer_port: u16,
) -> CommandView {
    match message {
        NodeMessageView::Register { id, addr, resources } => CommandView::RegisterNode {
            node: NodeView {
                id,
                addr: effective_addr(addr, peer_ip, peer_port),
                status: NodeStatus::Unknown,
                resources,
            },
        },
        NodeMessageView::Heartbeat(heartbeat) => CommandView::RecordHeartbeat { heartbeat },
        NodeMessageView::Deregister { id } => CommandView::DeregisterNode { id },
    }
}

/// Decide what follows from an event on a node's connection. A message is passed
/// on as a command; a garbled line is skipped; the connection ends when the node
/// deregisters, hangs up or cannot be read from.
pub fn handle_connection_event(
    event: ConnectionEvent,
    peer_ip: &str,
    peer_port: u16,
) -> (step: ConnectionStep)
    ensures
        match event {
            ConnectionEvent::Message(message) => {
                &&& step.command is Some
                &&& step.command->Some_0@ == command_of(message@, peer_ip@, peer_port)
                &&& step.keep_open == !(message is Deregister)
            },
            ConnectionEvent::Garbled => step.command is None && step.keep_open,
            _ => step.command is None && !step.keep_open,
        },
{
    match event {
        ConnectionEvent::Closed => ConnectionStep { command: None, keep_open: false },
        ConnectionEvent::ReadFailed => ConnectionStep { command: None, keep_open: false },
        ConnectionEvent::Garbled => ConnectionStep { command: None, keep_open: true },
        ConnectionEvent::Message(NodeMessage::Register { id, addr, resources }) => {
            let mut node = Node::new(id.as_str(), addr, resources);
            if node.addr.as_str().unicode_len() == 0 || contains_text(
                node.addr.as_str(),
                "0.0.0.0",
            ) {
                let mut peer = owned(peer_ip);
                peer.append(":");
                push_decimal(&mut peer, peer_port as u64);
                node.addr = peer;
            }
            ConnectionStep { command: Some(StateCommand::RegisterNode { node }), keep_open: true }
        },
        ConnectionEvent::Message(NodeMessage::Heartbeat(heartbeat)) => ConnectionStep {
            command: Some(StateCommand::RecordHeartbeat { heartbeat }),
            keep_open: true,
        },
        ConnectionEvent::Message(NodeMessage::Deregister { id }) => ConnectionStep {
            command: Some(StateCommand::DeregisterNode { id }),
            keep_open: false,
        },
    }
}

/// Registering a node puts it under its ID, ready and seen now, with the address and the
/// resources that it gave, and leaves every other member as it was.
pub proof fn registration_records_the_node(
    state: Members,
    node: NodeView,
    now: Timestamp,
    other: Seq<char>,
)
    requires
        other != node.id,
    ensures
        ({
            let r = after(state, CommandView::RegisterNode { node }, now);
            &&& r.contains_key(node.id)
            &&& r[node.id].node.id == node.id
            &&& r[node.id].node.addr == node.addr
            &&& r[node.id].node.resources == node.resources
            &&& r[node.id].node.status == NodeStatus::Ready
            &&& r[node.id].last_seen == now
            &&& r.contains_key(other) == state.contains_key(other)
            &&& state.contains_key(other) ==> r[other] == state[other]
        }),
{
}

/// A heartbeat of a known node makes it ready, with the resources and the time of the
/// heartbeat and the address it had. One of an unknown node lists it, ready and seen now,
/// with an address that says that none is known. Every other member stays as it was.
pub proof fn heartbeat_updates_its_node(
    state: Members,
    hb: HeartbeatView,
    now: Timestamp,
    other: Seq<char>,
)
    requires
        other != hb.node_id,
    ensures
        ({
            let r = after(state, CommandView::RecordHeartbeat { heartbeat: hb }, now);
            let id = hb.node_id;
            &&& r.contains_key(id)
            &&& r[id].node.status == NodeStatus::Ready
            &&& r[id].node.resources == hb.resources
            &&& state.contains_key(id) ==> r[id].node.addr == state[id].node.addr
                && r[id].node.id == state[id].node.id && r[id].last_seen == hb.timestamp
            &&& !state.contains_key(id) ==> r[id].node.addr == "unknown"@ && r[id].node.id == id
                && r[id].last_seen == now
            &&& r.contains_key(other) == state.contains_key(other)
            &&& state.contains_key(other) ==> r[other] == state[other]
        }),
{
}

/// Deregistering a node changes its status to unknown and nothing else; a node that is
/// not listed does not come to be listed by it.
pub proof fn deregistration_changes_one_status(
    state: Members,
    id: Seq<char>,
    now: Timestamp,
    any: Seq<char>,
)
    ensures
        ({
            let r = after(state, CommandView::DeregisterNode { id }, now);
            &&& r.contains_key(any) == state.contains_key(any)
            &&& state.contains_key(any) ==> {
                &&& r[any].node.id == state[any].node.id
                &&& r[any].node.addr == state[any].node.addr
                &&& r[any].node.resources == state[any].node.resources
                &&& r[any].last_seen == state[any].last_seen
                &&& r[any].node.status == (if any == id {
                    NodeStatus::Unknown
                } else {
                    state[any].node.status
                })
            }
        }),
{
}

/// A liveness check marks a ready member as unknown exactly when more nanoseconds than
/// the grace period have passed since it was last seen; it changes nothing else. Leap
/// seconds aside, what has passed is the difference of the two times.
pub proof fn liveness_check_marks_exactly_the_overdue(
    state: Members,
    grace_period: u128,
    now: Timestamp,
    any: Seq<char>,
)
    ensures
        ({
            let r = after(state, CommandView::ReconcileLiveness { grace_period }, now);
            &&& r.contains_key(any) == state.contains_key(any)
            &&& state.contains_key(any) ==> {
                let m = state[any];
                &&& r[any].node.id == m.node.id
                &&& r[any].node.addr == m.node.addr
                &&& r[any].node.resources == m.node.resources
                &&& r[any].last_seen == m.last_seen
                &&& m.node.status != NodeStatus::Ready ==> r[any].node.status == m.node.status
                &&& m.node.status == NodeStatus::Ready && now.nanos < 1_000_000_000
                    && m.last_seen.nanos < 1_000_000_000 ==> {
                    let passed = (now.secs - m.last_seen.secs) * 1_000_000_000 + now.nanos
                        - m.last_seen.nanos;
                    r[any].node.status == (if passed > grace_period {
                        NodeStatus::Unknown
                    } else {
                        NodeStatus::Ready
                    })
                }
            }
        }),
{
}

/// Asking for the nodes changes nothing.
pub proof fn listing_changes_nothing(state: Members, now: Timestamp)
    ensures
        after(state, CommandView::GetNodes, now) == state,
{
}

/// The registry after commands that were carried out one by one, each at its time.
pub open spec fn after_all(state: Members, commands: Seq<(CommandView, Timestamp)>) -> Members
    decreases commands.len(),
{
    if commands.len() == 0 {
        state
    } else {
        let (command, now) = commands.last();
        after(after_all(state, commands.drop_last()), command, now)
    }
}

/// The address with which a node registered stays through whatever follows, until the
/// node registers again.
pub proof fn addresses_last(
    state: Members,
    node: NodeView,
    now: Timestamp,
    commands: Seq<(CommandView, Timestamp)>,
)
    requires
        forall|k: int|
            0 <= k < commands.len() ==> !((#[trigger] commands[k]).0 matches
                CommandView::RegisterNode { node: again } && again.id == node.id),
    ensures
        ({
            let r = after_all(after(state, CommandView::RegisterNode { node }, now), commands);
            r.contains_key(node.id) && r[node.id].node.addr == node.addr && r[node.id].node.id
                == node.id
        }),
    decreases commands.len(),
{
    if commands.len() > 0 {
        let before = commands.drop_last();
        assert forall|k: int| 0 <= k < before.len() implies !((#[trigger] before[k]).0 matches
            CommandView::RegisterNode { node: again } && again.id == node.id) by {
            assert(before[k] == commands[k]);
        }
        addresses_last(state, node, now, before);
        assert(commands[commands.len() - 1] == commands.last());
    }
}

/// A message of a node becomes the command of its kind for that node: a registration
/// under its ID with its resources, a heartbeat as it came, a deregistration of its ID.
pub proof fn messages_become_commands(
    message: NodeMessageView,
    peer_ip: Seq<char>,
    peer_port: u16,
)
    ensures
        match message {
            NodeMessageView::Register { id, addr, resources } => {
                &&& command_of(message, peer_ip, peer_port) is RegisterNode
                &&& command_of(message, peer_ip, peer_port)->node.id == id
                &&& command_of(message, peer_ip, peer_port)->node.resources == resources
                &&& command_of(message, peer_ip, peer_port)->node.addr == effective_addr(
                    addr,
                    peer_ip,
                    peer_port,
                )
            },
            NodeMessageView::Heartbeat(hb) => command_of(message, peer_ip, peer_port) == (
            CommandView::RecordHeartbeat { heartbeat: hb }),
            NodeMessageView::Deregister { id } => command_of(message, peer_ip, peer_port) == (
            CommandView::DeregisterNode { id }),
        },
{
}

/// A node is registered under the address it gave, unless that is empty or holds the
/// unspecified address; then under the peer's address and port.
pub proof fn given_addresses_are_used(addr: Seq<char>, peer_ip: Seq<char>, peer_port: u16)
    ensures
        addr.len() == 0 ==> effective_addr(addr, peer_ip, peer_port) == peer_ip + ":"@ + decimal(
            peer_port as nat,
        ),
        (exists|k: int|
            0 <= k <= addr.len() - "0.0.0.0"@.len() && #[trigger] addr.subrange(
                k,
                k + "0.0.0.0"@.len(),
            ) == "0.0.0.0"@) ==> effective_addr(addr, peer_ip, peer_port) == peer_ip + ":"@
            + decimal(peer_port as nat),
        addr.len() > 0 && (forall|k: int|
            0 <= k <= addr.len() - "0.0.0.0"@.len() ==> #[trigger] addr.subrange(
                k,
                k + "0.0.0.0"@.len(),
            ) != "0.0.0.0"@) ==> effective_addr(addr, peer_ip, peer_port) == addr,
{
}

/// A node that registers over a connection and is listed afterwards is listed under the
/// ID, the address and the resources of its message.
pub proof fn registered_over_a_connection(
    state: Members,
    id: Seq<char>,
    addr: Seq<char>,
    resources: ResourceSpec,
    peer_ip: Seq<char>,
    peer_port: u16,
    now: Timestamp,
)
    requires
        addr.len() > 0,
        !occurs_in("0.0.0.0"@, addr),
    ensures
        ({
            let command = command_of(
                NodeMessageView::Register { id, addr, resources },
                peer_ip,
                peer_port,
            );
            let m = after(state, command, now)[id];
            m.node == (NodeView { id, addr, status: NodeStatus::Ready, resources }) && m.last_seen
                == now
        }),
{
}

// ---------------------------------------------------------------------------
// What carrying out a command does
// ---------------------------------------------------------------------------

/// After a node was registered, the registry lists it under its ID with the address and the
/// resources that it gave, ready; every other member is as it was.
pub proof fn registering_lists_the_node(node: Node, now: Timestamp, other: Seq<char>)
    requires
        other != node.id@,
    ensures
        forall|s: &mut ClusterState, r: Option<Vec<Node>>| #[trigger]
            call_ensures(
                ClusterState::handle_command,
                (s, StateCommand::RegisterNode { node }, now),
                r,
            ) ==> {
                let m = final(s)@[node.id@];
                &&& final(s)@.contains_key(node.id@)
                &&& m.node.id == node.id@
                &&& m.node.addr == node.addr@
                &&& m.node.resources == node.resources
                &&& m.node.status == NodeStatus::Ready
                &&& m.last_seen == now
                &&& final(s)@.contains_key(other) == s@.contains_key(other)
                &&& s@.contains_key(other) ==> final(s)@[other] == s@[other]
            },
{
}

/// After a heartbeat was recorded, its node is ready with the resources that it reported,
/// at the address under which it was listed before.
pub proof fn recording_a_heartbeat_updates_its_node(
    hb: Heartbeat,
    now: Timestamp,
    other: Seq<char>,
)
    requires
        other != hb.node_id@,
    ensures
        forall|s: &mut ClusterState, r: Option<Vec<Node>>| #[trigger]
            call_ensures(
                ClusterState::handle_command,
                (s, StateCommand::RecordHeartbeat { heartbeat: hb }, now),
                r,
            ) ==> {
                let id = hb.node_id@;
                &&& final(s)@.contains_key(id)
                &&& final(s)@[id].node.status == NodeStatus::Ready
                &&& final(s)@[id].node.resources == hb.resources
                &&& s@.contains_key(id) ==> final(s)@[id].node.addr == s@[id].node.addr
                    && final(s)@[id].last_seen == hb.timestamp
                &&& final(s)@.contains_key(other) == s@.contains_key(other)
                &&& s@.contains_key(other) ==> final(s)@[other] == s@[other]
            },
{
}

/// After a node was deregistered it is listed as unknown, if it was listed, with all else as
/// it was; and the registry is otherwise as it was.
pub proof fn deregistering_marks_the_node(id: NodeId, now: Timestamp, any: Seq<char>)
    ensures
        forall|s: &mut ClusterState, r: Option<Vec<Node>>| #[trigger]
            call_ensures(
                ClusterState::handle_command,
                (s, StateCommand::DeregisterNode { id }, now),
                r,
            ) ==> {
                &&& final(s)@.contains_key(any) == s@.contains_key(any)
                &&& s@.contains_key(any) && any != id@ ==> final(s)@[any] == s@[any]
                &&& s@.contains_key(id@) ==> {
                    &&& final(s)@[id@].node.status == NodeStatus::Unknown
                    &&& final(s)@[id@].node.addr == s@[id@].node.addr
                    &&& final(s)@[id@].node.resources == s@[id@].node.resources
                    &&& final(s)@[id@].last_seen == s@[id@].last_seen
                }
            },
{
}

/// After a liveness check exactly those ready nodes are unknown that were last seen longer
/// ago than the grace period; nothing else has changed.
pub proof fn checking_marks_the_silent(grace_period: u128, now: Timestamp, any: Seq<char>)
    requires
        now.nanos < 1_000_000_000,
    ensures
        forall|s: &mut ClusterState, r: Option<Vec<Node>>| #[trigger]
            call_ensures(
                ClusterState::handle_command,
                (s, StateCommand::ReconcileLiveness { grace_period }, now),
                r,
            ) ==> {
                &&& final(s)@.contains_key(any) == s@.contains_key(any)
                &&& s@.contains_key(any) && s@[any].last_seen.nanos < 1_000_000_000 ==> {
                    let seen = s@[any].last_seen;
                    let passed = (now.secs - seen.secs) * 1_000_000_000 + now.nanos - seen.nanos;
                    &&& final(s)@[any].node.addr == s@[any].node.addr
                    &&& final(s)@[any].node.resources == s@[any].node.resources
                    &&& final(s)@[any].last_seen == seen
                    &&& s@[any].node.status == NodeStatus::Ready && passed > grace_period
                        ==> final(s)@[any].node.status == NodeStatus::Unknown
                    &&& s@[any].node.status != NodeStatus::Ready || passed <= grace_period
                        ==> final(s)@[any].node.status == s@[any].node.status
                }
            },
{
}

/// The list of nodes holds every member once, as the registry has it, and nothing else;
/// asking for it changes nothing.
pub proof fn listing_shows_every_member(now: Timestamp, id: Seq<char>, at: int)
    ensures
        forall|s: &mut ClusterState, r: Option<Vec<Node>>| #[trigger]
            call_ensures(ClusterState::handle_command, (s, StateCommand::GetNodes, now), r) ==> {
                let list = r->Some_0@;
                &&& final(s)@ == s@
                &&& r is Some
                &&& list.len() == s@.dom().len()
                &&& s@.contains_key(id) ==> exists|i: int|
                    0 <= i < list.len() && (#[trigger] list[i])@ == s@[id].node
                &&& 0 <= at < list.len() ==> exists|k: Seq<char>| #[trigger]
                    s@.contains_key(k) && list[at]@ == s@[k].node
            },
{
    assert forall|s: &mut ClusterState, r: Option<Vec<Node>>| #[trigger]
        call_ensures(ClusterState::handle_command, (s, StateCommand::GetNodes, now), r) implies {
        let list = r->Some_0@;
        &&& final(s)@ == s@
        &&& r is Some
        &&& list.len() == s@.dom().len()
        &&& s@.contains_key(id) ==> exists|i: int|
            0 <= i < list.len() && (#[trigger] list[i])@ == s@[id].node
        &&& 0 <= at < list.len() ==> exists|k: Seq<char>| #[trigger]
            s@.contains_key(k) && list[at]@ == s@[k].node
    } by {
        let order = s.nodes.order();
        let list = r->Some_0@;
        if s@.contains_key(id) {
            assert(order.contains(id));
            let i = choose|i: int| 0 <= i < order.len() && order[i] == id;
            assert(list[i]@ == s@[order[i]].node);
        }
        if 0 <= at < list.len() {
            assert(order.contains(order[at]));
            assert(s@.contains_key(order[at]));
            assert(list[at]@ == s@[order[at]].node);
        }
    }
}

/// What a node says on its connection is passed on, and the connection stays open until it
/// deregisters, hangs up or cannot be read from; a garbled line is skipped.
pub proof fn connections_pass_on_what_is_said(
    event: ConnectionEvent,
    peer_ip: &str,
    peer_port: u16,
    step: ConnectionStep,
)
    requires
        call_ensures(handle_connection_event, (event, peer_ip, peer_port), step),
    ensures
        step.command is Some <==> event is Message,
        step.keep_open <==> event is Garbled || (event matches ConnectionEvent::Message(m) && !(m
            is Deregister)),
        event matches ConnectionEvent::Message(NodeMessage::Register { id, addr, resources }) ==> {
            let node = step.command->Some_0->node;
            &&& step.command->Some_0 is RegisterNode
            &&& node.id@ == id@
            &&& node.resources == resources
            &&& addr@.len() > 0 && !occurs_in("0.0.0.0"@, addr@) ==> node.addr@ == addr@
            &&& addr@.len() == 0 || occurs_in("0.0.0.0"@, addr@) ==> node.addr@ == peer_ip@ + ":"@
                + decimal(peer_port as nat)
        },
        event matches ConnectionEvent::Message(NodeMessage::Heartbeat(hb)) ==> step.command->Some_0
            is RecordHeartbeat && step.command->Some_0->heartbeat@ == hb@,
        event matches ConnectionEvent::Message(NodeMessage::Deregister { id })
            ==> step.command->Some_0 is DeregisterNode
            && step.command->Some_0->DeregisterNode_id@ == id@,
{
    if event is Message {
        let command = step.command->Some_0;
        assert(command@ == command_of(event->Message_0@, peer_ip@, peer_port));
    }
}

} // verus!
