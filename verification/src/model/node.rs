//! Node-related types: worker machines and what they report.

use vstd::prelude::*;
use vstd::string::*;

use crate::model::resources::ResourceSpec;
use crate::text::{occurs_in, owned, parts_are_found, IntoText};

verus! {

/// A strongly-typed identifier for a cluster node.
#[derive(Debug, PartialEq, Eq, Hash)]
pub struct NodeId(pub String);

impl View for NodeId {
    type V = Seq<char>;

    open spec fn view(&self) -> Seq<char> {
        self.0@
    }
}

impl NodeId {
    /// Create a new `NodeId` from any text.
    pub fn new(id: impl IntoText) -> (r: Self)
        ensures
            r@ == id.text(),
    {
        NodeId(id.into_text())
    }

    /// Return the inner string slice.
    pub fn as_str(&self) -> (s: &str)
        ensures
            s@ == self@,
    {
        self.0.as_str()
    }

    /// Render the identifier.
    pub fn to_string(&self) -> (s: String)
        ensures
            s@ == self@,
    {
        self.0.clone()
    }
}

impl Clone for NodeId {
    fn clone(&self) -> (r: Self)
        ensures
            r == *self,
    {
        NodeId(self.0.clone())
    }
}

/// Lifecycle state of a cluster node as seen by the control plane.
#[derive(Debug, Clone, Copy, PartialEq, Eq, Structural)]
pub enum NodeStatus {
    /// Node is registered, reachable, and accepting workloads.
    Ready,
    /// Node is registered but health checks are failing.
    NotReady,
    /// Node has not sent a heartbeat within the grace period.
    Unknown,
}

impl NodeStatus {
    /// The rendered form.
    pub open spec fn text(self) -> Seq<char> {
        match self {
            NodeStatus::Ready => "Ready"@,
            NodeStatus::NotReady => "NotReady"@,
            NodeStatus::Unknown => "Unknown"@,
        }
    }

    /// The name of the status.
    pub fn name(&self) -> (s: &'static str)
        ensures
            s@ == self.text(),
    {
        match self {
            NodeStatus::Ready => "Ready",
            NodeStatus::NotReady => "NotReady",
            NodeStatus::Unknown => "Unknown",
        }
    }

    /// Render the status.
    pub fn to_string(&self) -> (s: String)
        ensures
            s@ == self.text(),
    {
        owned(self.name())
    }
}

/// A worker node in the cluster.
#[derive(Debug)]
pub struct Node {
    /// Unique identifier for this node.
    pub id: NodeId,
    /// The `host:port` address this node listens on.
    pub addr: String,
    /// Current lifecycle state of the node.
    pub status: NodeStatus,
    /// Advertised resource capacity of this node.
    pub resources: ResourceSpec,
}

/// A node, as the specification sees it.
#[verifier::ext_equal]
pub struct NodeView {
    pub id: Seq<char>,
    pub addr: Seq<char>,
    pub status: NodeStatus,
    pub resources: ResourceSpec,
}

impl View for Node {
    type V = NodeView;

    open spec fn view(&self) -> NodeView {
        NodeView {
            id: self.id@,
            addr: self.addr@,
            status: self.status,
            resources: self.resources,
        }
    }
}

impl Node {
    /// The rendered form.
    pub open spec fn text(&self) -> Seq<char> {
        self.id@ + " ["@ + self.status.text() + "] @ "@ + self.addr@ + " ("@
            + self.resources.text() + ")"@
    }

    /// Construct a new node in the unknown state.
    pub fn new(id: impl IntoText, addr: impl IntoText, resources: ResourceSpec) -> (n: Self)
        ensures
            n.id@ == id.text(),
            n.addr@ == addr.text(),
            n.status == NodeStatus::Unknown,
            n.resources == resources,
    {
        Node {
            id: NodeId::new(id),
            addr: addr.into_text(),
            status: NodeStatus::Unknown,
            resources,
        }
    }

    /// Render the node.
    pub fn to_string(&self) -> (s: String)
        ensures
            s@ == self.text(),
    {
        let mut s = self.id.to_string();
        s.append(" [");
        s.append(self.status.name());
        s.append("] @ ");
        s.append(self.addr.as_str());
        s.append(" (");
        s.append(self.resources.to_string().as_str());
        s.append(")");
        s
    }
}

impl Clone for Node {
    fn clone(&self) -> (r: Self)
        ensures
            r == *self,
    {
        Node {
            id: self.id.clone(),
            addr: self.addr.clone(),
            status: self.status,
            resources: self.resources,
        }
    }
}

/// A point in time: seconds since the Unix epoch and nanoseconds within the
/// second. A second's worth of nanoseconds or more stands for the leap second that
/// follows the second.
#[derive(Debug, Clone, Copy, PartialEq, Eq, Structural)]
pub struct Timestamp {
    /// Seconds since 1970-01-01T00:00:00Z.
    pub secs: i64,
    /// Nanoseconds.
    pub nanos: u32,
}

impl Timestamp {
    /// The second of the day.
    pub open spec fn day_second(self) -> int {
        self.secs as int % 86_400
    }

    /// The point in time lies in a leap second.
    pub open spec fn in_leap_second(self) -> bool {
        self.nanos >= 1_000_000_000
    }

    /// The nanoseconds from another point in time to this one, negative if this one is
    /// earlier. A leap second in which the one that is earlier in its day lies is
    /// counted; no others are known of.
    pub open spec fn nanos_from(self, other: Timestamp) -> int {
        let uncounted: int = if self.day_second() > other.day_second() && other.in_leap_second() {
            1
        } else if self.day_second() < other.day_second() && self.in_leap_second() {
            -1
        } else {
            0
        };
        (self.secs - other.secs + uncounted) * 1_000_000_000 + self.nanos - other.nanos
    }

    /// Compute the second of the day.
    fn second_of_day(&self) -> (s: u128)
        ensures
            s == self.day_second(),
    {
        // A whole number of days that brings every second to the positive side.
        let shifted: u128 = (self.secs as i128 + 17_280_000_000_000_000_000) as u128;
        proof {
            vstd::arithmetic::div_mod::lemma_mod_multiples_vanish(
                200_000_000_000_000,
                self.secs as int,
                86_400,
            );
        }
        shifted % 86_400
    }

    /// The nanoseconds that passed since an earlier point in time; zero if it is
    /// later.
    pub fn nanos_since(&self, earlier: &Timestamp) -> (n: u128)
        ensures
            n == (if self.nanos_from(*earlier) > 0 {
                self.nanos_from(*earlier)
            } else {
                0
            }),
    {
        let here: u128 = self.second_of_day();
        let there: u128 = earlier.second_of_day();
        let uncounted: i128 = if here > there && earlier.nanos >= 1_000_000_000 {
            1
        } else if here < there && self.nanos >= 1_000_000_000 {
            -1
        } else {
            0
        };
        let secs: i128 = self.secs as i128 - earlier.secs as i128 + uncounted;
        let passed: i128 = secs * 1_000_000_000 + self.nanos as i128 - earlier.nanos as i128;
        if passed > 0 {
            passed as u128
        } else {
            0
        }
    }
}

/// A heartbeat message sent from worker nodes to the control plane.
#[derive(Debug)]
pub struct Heartbeat {
    /// Unique identifier of the reporting node.
    pub node_id: NodeId,
    /// Lifecycle state reported by the node.
    pub status: NodeStatus,
    /// The node's current available resource capacity.
    pub resources: ResourceSpec,
    /// When this heartbeat was generated.
    pub timestamp: Timestamp,
}

/// A heartbeat, as the specification sees it.
#[verifier::ext_equal]
pub struct HeartbeatView {
    pub node_id: Seq<char>,
    pub status: NodeStatus,
    pub resources: ResourceSpec,
    pub timestamp: Timestamp,
}

impl View for Heartbeat {
    type V = HeartbeatView;

    open spec fn view(&self) -> HeartbeatView {
        HeartbeatView {
            node_id: self.node_id@,
            status: self.status,
            resources: self.resources,
            timestamp: self.timestamp,
        }
    }
}

/// Messages exchanged between worker nodes and the control plane.
#[derive(Debug)]
pub enum NodeMessage {
    /// Initial registration request sent by a worker node.
    Register {
        /// Unique identifier for the node.
        id: NodeId,
        /// Listen address of the node.
        addr: String,
        /// Resources advertised by the node.
        resources: ResourceSpec,
    },
    /// Periodic heartbeat report.
    Heartbeat(Heartbeat),
    /// Clean deregistration on node shutdown.
    Deregister {
        /// Unique identifier of the node.
        id: NodeId,
    },
}

/// A message, as the specification sees it.
#[verifier::ext_equal]
pub enum NodeMessageView {
    Register { id: Seq<char>, addr: Seq<char>, resources: ResourceSpec },
    Heartbeat(HeartbeatView),
    Deregister { id: Seq<char> },
}

impl View for NodeMessage {
    type V = NodeMessageView;

    open spec fn view(&self) -> NodeMessageView {
        match *self {
            NodeMessage::Register { id, addr, resources } => NodeMessageView::Register {
                id: id@,
                addr: addr@,
                resources,
            },
            NodeMessage::Heartbeat(hb) => NodeMessageView::Heartbeat(hb@),
            NodeMessage::Deregister { id } => NodeMessageView::Deregister { id: id@ },
        }
    }
}

/// Outside leap seconds the time from one point to another is the difference of the two
/// in nanoseconds; there and back cancel out, and a way in two parts is the sum of both.
pub proof fn time_is_measured_in_nanoseconds(a: Timestamp, b: Timestamp, c: Timestamp)
    requires
        a.nanos < 1_000_000_000,
        b.nanos < 1_000_000_000,
        c.nanos < 1_000_000_000,
    ensures
        a.nanos_from(b) == (a.secs - b.secs) * 1_000_000_000 + (a.nanos - b.nanos),
        a.nanos_from(a) == 0,
        a.nanos_from(b) == -b.nanos_from(a),
        a.nanos_from(c) == a.nanos_from(b) + b.nanos_from(c),
        a.nanos_from(b) > 0 <==> a.secs > b.secs || (a.secs == b.secs && a.nanos > b.nanos),
{
}

/// A node is rendered beginning with its ID, with its status before its address and that
/// before its resources.
pub proof fn nodes_are_rendered_in_order(n: Node)
    ensures
        n.id@.is_prefix_of(n.text()),
        occurs_in(
            (match n.status {
                NodeStatus::Ready => "[Ready] @ "@,
                NodeStatus::NotReady => "[NotReady] @ "@,
                NodeStatus::Unknown => "[Unknown] @ "@,
            }) + n.addr@ + " ("@ + n.resources.text(),
            n.text(),
        ),
{
    reveal_strlit(" [");
    reveal_strlit(" ");
    reveal_strlit("[Ready] @ ");
    reveal_strlit("[NotReady] @ ");
    reveal_strlit("[Unknown] @ ");
    reveal_strlit("Ready");
    reveal_strlit("NotReady");
    reveal_strlit("Unknown");
    reveal_strlit("] @ ");
    let name = match n.status {
        NodeStatus::Ready => "[Ready] @ "@,
        NodeStatus::NotReady => "[NotReady] @ "@,
        NodeStatus::Unknown => "[Unknown] @ "@,
    };
    assert(" ["@ + n.status.text() + "] @ "@ =~= " "@ + name);
    let part = name + n.addr@ + " ("@ + n.resources.text();
    let before = n.id@ + " "@;
    assert(n.text() =~= before + part + ")"@);
    parts_are_found(before, part, ")"@);
    parts_are_found(n.id@, " "@ + part + ")"@, ")"@);
    assert(n.text() =~= n.id@ + (" "@ + part + ")"@));
}

/// The time that has passed since an earlier point is the difference of the two, and none
/// has passed since a later one, leap seconds aside.
pub proof fn passed_time_is_the_difference(a: Timestamp, b: Timestamp, n: u128)
    requires
        a.nanos < 1_000_000_000,
        b.nanos < 1_000_000_000,
        call_ensures(Timestamp::nanos_since, (&a, &b), n),
    ensures
        a.secs > b.secs || (a.secs == b.secs && a.nanos >= b.nanos) ==> n == (a.secs - b.secs)
            * 1_000_000_000 + a.nanos - b.nanos,
        a.secs < b.secs || (a.secs == b.secs && a.nanos < b.nanos) ==> n == 0,
{
    time_is_measured_in_nanoseconds(a, b, a);
}

} // verus!
