//! Linux namespace isolation for container processes.

use vstd::prelude::*;

use crate::runtime::steps::{step_views, Step, StepView};

verus! {

/// Which namespaces to create.
#[derive(Debug, Clone, Copy, PartialEq, Eq, Structural)]
pub struct NamespaceConfig {
    /// Create a new PID namespace.
    pub pid: bool,
    /// Create a new network namespace.
    pub net: bool,
    /// Create a new UTS namespace.
    pub uts: bool,
    /// Create a new mount namespace.
    pub mount: bool,
    /// Create a new IPC namespace.
    pub ipc: bool,
}

impl Default for NamespaceConfig {
    /// Full isolation: all namespaces enabled.
    fn default() -> (c: Self)
        ensures
            c == (NamespaceConfig { pid: true, net: true, uts: true, mount: true, ipc: true }),
    {
        NamespaceConfig { pid: true, net: true, uts: true, mount: true, ipc: true }
    }
}

impl NamespaceConfig {
    /// No namespace is requested.
    pub open spec fn empty(self) -> bool {
        !self.pid && !self.net && !self.uts && !self.mount && !self.ipc
    }

    /// Create a config with all namespaces enabled.
    pub fn full_isolation() -> (c: Self)
        ensures
            c == (NamespaceConfig { pid: true, net: true, uts: true, mount: true, ipc: true }),
    {
        NamespaceConfig { pid: true, net: true, uts: true, mount: true, ipc: true }
    }

    /// Create a config with no namespaces.
    pub fn none() -> (c: Self)
        ensures
            c.empty(),
    {
        NamespaceConfig { pid: false, net: false, uts: false, mount: false, ipc: false }
    }
}

/// The steps that create the namespaces.
pub open spec fn namespace_steps(config: NamespaceConfig) -> Seq<StepView> {
    if config.empty() {
        Seq::empty()
    } else {
        seq![StepView::Unshare { namespaces: config }]
    }
}

/// Plan the creation of namespaces: one `unshare`, or nothing if none is
/// requested.
pub fn create_namespaces(config: &NamespaceConfig) -> (steps: Vec<Step>)
    ensures
        step_views(steps@) == namespace_steps(*config),
{
    let mut steps: Vec<Step> = Vec::new();
    if config.pid || config.net || config.uts || config.mount || config.ipc {
        steps.push(Step::Unshare { namespaces: *config });
    }
    assert(step_views(steps@) =~= namespace_steps(*config));
    steps
}

/// The plan enters exactly the namespaces asked for, in one step, and has no step where
/// none is asked for.
pub proof fn requested_namespaces_are_entered(config: NamespaceConfig)
    ensures
        config.pid || config.net || config.uts || config.mount || config.ipc ==> namespace_steps(
            config,
        ).len() == 1 && namespace_steps(config)[0] == (StepView::Unshare { namespaces: config }),
        !config.pid && !config.net && !config.uts && !config.mount && !config.ipc
            ==> namespace_steps(config).len() == 0,
{
}

} // verus!
