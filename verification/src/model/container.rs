//! Container-related types: the atomic unit of work scheduled onto a node.

use vstd::prelude::*;
use vstd::string::*;

use crate::model::node::NodeId;
use crate::model::resources::ResourceSpec;
use crate::text::{owned, IntoText};

verus! {

/// A strongly-typed identifier for a container instance.
#[derive(Debug, PartialEq, Eq, Hash)]
pub struct ContainerId(pub String);

impl View for ContainerId {
    type V = Seq<char>;

    open spec fn view(&self) -> Seq<char> {
        self.0@
    }
}

impl ContainerId {
    /// Create a new `ContainerId` from any text.
    pub fn new(id: impl IntoText) -> (r: Self)
        ensures
            r@ == id.text(),
    {
        ContainerId(id.into_text())
    }

    /// Return the inner string slice.
    pub fn as_str(&self) -> (s: &str)
        ensures
            s@ == self@,
    {
        self.0.as_str()
    }

    /// Render the identifier.
    pub fn to_string(&self) -> (s: String)
        ensures
            s@ == self@,
    {
        self.0.clone()
    }
}

/// Lifecycle state of a container as tracked by the control plane.
#[derive(Debug, Clone, Copy, PartialEq, Eq, Structural)]
pub enum ContainerStatus {
    /// Container is queued but not yet assigned to a node.
    Pending,
    /// Container is actively executing on a worker node.
    Running,
    /// Container has exited cleanly.
    Stopped,
    /// Container exited with an error or was forcibly killed.
    Failed,
}

impl ContainerStatus {
    /// The rendered form.
    pub open spec fn text(self) -> Seq<char> {
        match self {
            ContainerStatus::Pending => "Pending"@,
            ContainerStatus::Running => "Running"@,
            ContainerStatus::Stopped => "Stopped"@,
            ContainerStatus::Failed => "Failed"@,
        }
    }

    /// Render the status.
    pub fn to_string(&self) -> (s: String)
        ensures
            s@ == self.text(),
    {
        match self {
            ContainerStatus::Pending => owned("Pending"),
            ContainerStatus::Running => owned("Running"),
            ContainerStatus::Stopped => owned("Stopped"),
            ContainerStatus::Failed => owned("Failed"),
        }
    }
}

/// Specification of a workload submitted to the cluster.
#[derive(Debug, PartialEq, Eq)]
pub struct WorkloadSpec {
    /// Unique identifier for the workload.
    pub id: String,
    /// Human-readable name.
    pub name: String,
    /// OCI image reference.
    pub image: String,
    /// Resource requirements for containers spawned by this workload.
    pub resources: ResourceSpec,
    /// Number of desired replicas.
    pub replicas: u32,
}

impl WorkloadSpec {
    /// Create a new workload specification.
    pub fn new(
        id: impl IntoText,
        name: impl IntoText,
        image: impl IntoText,
        resources: ResourceSpec,
        replicas: u32,
    ) -> (w: Self)
        ensures
            w.id@ == id.text(),
            w.name@ == name.text(),
            w.image@ == image.text(),
            w.resources == resources,
            w.replicas == replicas,
    {
        WorkloadSpec {
            id: id.into_text(),
            name: name.into_text(),
            image: image.into_text(),
            resources,
            replicas,
        }
    }
}

/// A container instance.
#[derive(Debug)]
pub struct Container {
    /// Unique identifier for this container instance.
    pub id: ContainerId,
    /// Human-readable name supplied by the operator.
    pub name: String,
    /// OCI image reference (e.g. `"ubuntu:22.04"`).
    pub image: String,
    /// Current lifecycle state.
    pub status: ContainerStatus,
    /// Resource requests for scheduling.
    pub resources: ResourceSpec,
    /// The node this container has been scheduled onto, if assigned.
    pub node_id: Option<NodeId>,
}

impl Container {
    /// The rendered form.
    pub open spec fn text(&self) -> Seq<char> {
        self.name@ + " ("@ + self.id@ + ") ["@ + self.status.text() + "] — "@ + self.image@
    }

    /// Construct a new pending container with no node assignment.
    pub fn new(
        id: impl IntoText,
        name: impl IntoText,
        image: impl IntoText,
        resources: ResourceSpec,
    ) -> (c: Self)
        ensures
            c.id@ == id.text(),
            c.name@ == name.text(),
            c.image@ == image.text(),
            c.status == ContainerStatus::Pending,
            c.resources == resources,
            c.node_id is None,
    {
        Container {
            id: ContainerId::new(id),
            name: name.into_text(),
            image: image.into_text(),
            status: ContainerStatus::Pending,
            resources,
            node_id: None,
        }
    }

    /// Render the container.
    pub fn to_string(&self) -> (s: String)
        ensures
            s@ == self.text(),
    {
        let mut s = self.name.clone();
        s.append(" (");
        s.append(self.id.as_str());
        s.append(") [");
        s.append(self.status.to_string().as_str());
        s.append("] — ");
        s.append(self.image.as_str());
        s
    }
}

} // verus!
