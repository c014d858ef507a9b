//! Container lifecycle: what it takes to spawn, stop and inspect a container.

use vstd::prelude::*;
use vstd::string::*;

use crate::model::resources::ResourceSpec;
use crate::runtime::cgroup::{
    cgroup_path, cgroup_steps, cgroups_are_named_after_their_container,
    each_controller_gets_its_own_limit, limits_follow_from_the_request, CgroupLimits,
    CgroupManager,
};
use crate::runtime::error::RuntimeError;
use crate::runtime::filesystem::{
    mount_essential_filesystems, mount_steps, pivot_root, pivot_steps, prepare_rootfs,
    rootfs_steps, FilesystemConfig,
};
use crate::runtime::namespace::{
    create_namespaces, namespace_steps, requested_namespaces_are_entered, NamespaceConfig,
};
use crate::runtime::network::{
    container_end_is_configured_inside, in_subnet, network_steps, setup_container_network,
    NetworkConfig,
};
use crate::runtime::paths::{join, joined, joining_separates_once};
use crate::runtime::seccomp::{
    default_deny_list, filter_steps, install_filter, installed_filter_decides_by_number,
    named_numbers, run, SeccompConfig,
};
use crate::runtime::steps::{step_views, Execution, Step, StepFailure, StepView};
use crate::text::{decimal, owned, text_views, IntoText};

verus! {

/// Full specification for spawning a container.
#[derive(Debug)]
pub struct ContainerSpec {
    /// Unique identifier for this container instance.
    pub id: String,
    /// OCI image reference (e.g., "ubuntu:22.04").
    pub image: String,
    /// Command to execute as the container's entrypoint.
    pub command: Vec<String>,
    /// Environment variables (KEY=VALUE).
    pub env: Vec<String>,
    /// Working directory inside the container.
    pub working_dir: String,
    /// Resource limits.
    pub resources: ResourceSpec,
    /// Namespace configuration.
    pub namespaces: NamespaceConfig,
    /// Seccomp configuration.
    pub seccomp: SeccompConfig,
    /// Network configuration.
    pub network: Option<NetworkConfig>,
}

impl ContainerSpec {
    /// The limits of the machine on the resources and the filter.
    pub open spec fn representable(&self) -> bool {
        &&& self.resources.cpu_millicores * 100_000 <= u64::MAX
        &&& self.resources.memory_mib * 1_048_576 <= u64::MAX
        &&& self.seccomp.blocked_syscalls@.len() <= 0x7fff_0000
    }

    /// Create a minimal container spec: a shell, the default resources, full isolation.
    pub fn new(id: impl IntoText, image: impl IntoText) -> (c: Self)
        ensures
            c.id@ == id.text(),
            c.image@ == image.text(),
            text_views(c.command@) == seq!["/bin/sh"@],
            c.env@.len() == 0,
            c.working_dir@ == "/"@,
            c.resources == (ResourceSpec { cpu_millicores: 1000, memory_mib: 512 }),
            c.namespaces == (NamespaceConfig {
                pid: true,
                net: true,
                uts: true,
                mount: true,
                ipc: true,
            }),
            named_numbers(c.seccomp.blocked_syscalls@) == default_deny_list(),
            !c.seccomp.kill_on_violation,
            c.network is Some,
            in_subnet(c.network->Some_0, "veth-host0"@, 0),
            c.representable(),
    {
        let command: Vec<String> = vec![owned("/bin/sh")];
        assert(text_views(command@) =~= seq!["/bin/sh"@]);
        let seccomp = SeccompConfig::default();
        assert(named_numbers(seccomp.blocked_syscalls@).len()
            == seccomp.blocked_syscalls@.len());
        ContainerSpec {
            id: id.into_text(),
            image: image.into_text(),
            command,
            env: Vec::new(),
            working_dir: owned("/"),
            resources: ResourceSpec::default(),
            namespaces: NamespaceConfig::default(),
            seccomp,
            network: Some(NetworkConfig::default()),
        }
    }
}

/// The status of a spawned container.
#[derive(Debug, PartialEq, Eq)]
pub enum ContainerState {
    /// Container has been created but not started.
    Created,
    /// Container is actively running.
    Running {
        /// PID of the container's init process (in the host PID namespace).
        pid: u32,
    },
    /// Container has exited.
    Stopped {
        /// Exit code of the container process.
        exit_code: i32,
    },
    /// Container failed to start.
    Failed {
        /// Reason for the failure.
        reason: String,
    },
}

/// The root filesystem of a container below the state directory.
pub open spec fn rootfs_of(state_dir: Seq<char>, id: Seq<char>) -> Seq<char> {
    joined(joined(state_dir, id), "rootfs"@)
}

/// The steps that spawn a container: prepare the root filesystem, create the
/// cgroup, create the namespaces, mount and enter the root filesystem, install
/// the syscall filter, set up the network. The root is switched only inside a
/// mount namespace of the container's own.
pub open spec fn spawn_steps(state_dir: Seq<char>, c: ContainerSpec) -> Seq<StepView> {
    let rootfs = rootfs_of(state_dir, c.id@);
    rootfs_steps(rootfs) + cgroup_steps(cgroup_path(c.id@), CgroupLimits::of(c.resources))
        + namespace_steps(c.namespaces) + mount_steps(rootfs, true, true, true)
        + (if c.namespaces.mount {
        pivot_steps(rootfs)
    } else {
        Seq::empty()
    }) + filter_steps(c.seccomp) + match c.network {
        Some(n) => network_steps(n),
        None => Seq::empty(),
    }
}

/// A step that changes what is mounted where.
pub open spec fn mounts(step: StepView) -> bool {
    step is Mount || step is PivotRoot || step is Detach
}

/// The root is switched only in a mount namespace that the plan has created before,
/// and nothing is mounted once the syscall filter, which may forbid it, is in place.
pub proof fn root_is_switched_in_a_namespace_of_its_own(
    state_dir: Seq<char>,
    c: ContainerSpec,
    i: int,
)
    requires
        0 <= i < spawn_steps(state_dir, c).len(),
    ensures
        spawn_steps(state_dir, c)[i] is PivotRoot ==> c.namespaces.mount && exists|j: int|
            0 <= j < i && #[trigger] spawn_steps(state_dir, c)[j] == (StepView::Unshare {
                namespaces: c.namespaces,
            }),
        spawn_steps(state_dir, c)[i] is InstallFilter ==> forall|j: int|
            i < j < spawn_steps(state_dir, c).len() ==> !mounts(
                #[trigger] spawn_steps(state_dir, c)[j],
            ),
{
    let all = spawn_steps(state_dir, c);
    let rootfs = rootfs_of(state_dir, c.id@);
    let head = rootfs_steps(rootfs) + cgroup_steps(cgroup_path(c.id@), CgroupLimits::of(c.resources));
    let spaces = namespace_steps(c.namespaces);
    let mounting = mount_steps(rootfs, true, true, true);
    let pivot = if c.namespaces.mount {
        pivot_steps(rootfs)
    } else {
        Seq::empty()
    };
    let filter = filter_steps(c.seccomp);
    let net = match c.network {
        Some(n) => network_steps(n),
        None => Seq::empty(),
    };
    assert(head.len() == 11);
    assert(mounting.len() == 3);
    let s1 = head.len() as int;
    let s2 = s1 + spaces.len();
    let s3 = s2 + mounting.len();
    let s4 = s3 + pivot.len();
    let s5 = s4 + filter.len();
    assert(all == head + spaces + mounting + pivot + filter + net);
    if all[i] is PivotRoot {
        assert(c.namespaces.mount && s3 <= i < s4) by {
            if i < s1 {
                assert(all[i] == head[i]);
            } else if i < s2 {
                assert(all[i] == spaces[i - s1]);
            } else if i < s3 {
                assert(all[i] == mounting[i - s2]);
            } else if s4 <= i < s5 {
                assert(all[i] == filter[i - s4]);
            } else if s5 <= i {
                assert(all[i] == net[i - s5]);
            }
        }
        assert(all[s1] == spaces[0]);
    }
    if all[i] is InstallFilter {
        assert(s4 < i) by {
            if i < s1 {
                assert(all[i] == head[i]);
            } else if i < s2 {
                assert(all[i] == spaces[i - s1]);
            } else if i < s3 {
                assert(all[i] == mounting[i - s2]);
            } else if i < s4 {
                assert(all[i] == pivot[i - s3]);
            } else if i == s4 {
                assert(all[i] == filter[0]);
            }
        }
        assert forall|j: int| i < j < all.len() implies !mounts(#[trigger] all[j]) by {
            if j < s5 {
                assert(all[j] == filter[j - s4]);
            } else {
                assert(all[j] == net[j - s5]);
            }
        }
    }
}

/// Add steps to a plan.
fn extend(steps: &mut Vec<Step>, more: Vec<Step>)
    ensures
        step_views(final(steps)@) == step_views(old(steps)@) + step_views(more@),
{
    let ghost tail = more@;
    let mut more = more;
    steps.append(&mut more);
    assert(step_views(steps@) =~= step_views(old(steps)@) + step_views(tail));
}

/// The container runtime: brings the subsystems together.
#[derive(Debug)]
pub struct ContainerRuntime {
    /// Base directory for container rootfs and state.
    pub state_dir: String,
}

impl ContainerRuntime {
    /// Create a new container runtime with the given state directory.
    pub fn new(state_dir: impl IntoText) -> (r: Self)
        ensures
            r.state_dir@ == state_dir.text(),
    {
        ContainerRuntime { state_dir: state_dir.into_text() }
    }

    /// Return the state directory.
    pub fn state_dir(&self) -> (p: &str)
        ensures
            p@ == self.state_dir@,
    {
        self.state_dir.as_str()
    }

    /// The path of a container's root filesystem.
    pub fn rootfs(&self, container_id: &str) -> (p: String)
        ensures
            p@ == rootfs_of(self.state_dir@, container_id@),
    {
        let container_dir = join(self.state_dir.as_str(), container_id);
        join(container_dir.as_str(), "rootfs")
    }

    /// Plan the spawning of a container. Carrying the plan out stops at the first
    /// error; what was done before is left behind.
    pub fn spawn_container(&self, container: &ContainerSpec) -> (x: Execution)
        requires
            container.representable(),
        ensures
            x.wf(),
            x.done == 0,
            step_views(x.steps@) == spawn_steps(self.state_dir@, *container),
    {
        let rootfs = self.rootfs(container.id.as_str());
        let mut fs_config = FilesystemConfig::default();
        fs_config.rootfs = rootfs;

        let mut steps = prepare_rootfs(&fs_config);
        assert(step_views(steps@) =~= rootfs_steps(fs_config.rootfs@));

        let limits = CgroupLimits::from_resource_spec(&container.resources);
        let cgroup = CgroupManager::new(container.id.as_str(), limits);
        extend(&mut steps, cgroup.create());

        extend(&mut steps, create_namespaces(&container.namespaces));

        let mounting = mount_essential_filesystems(&fs_config);
        assert(step_views(mounting@) =~= mount_steps(fs_config.rootfs@, true, true, true));
        extend(&mut steps, mounting);
        let ghost before = step_views(steps@);
        if container.namespaces.mount {
            extend(&mut steps, pivot_root(fs_config.rootfs.as_str()));
        } else {
            assert(before + Seq::<StepView>::empty() =~= before);
        }

        extend(&mut steps, install_filter(&container.seccomp));
        let ghost before = step_views(steps@);
        match &container.network {
            Some(network) => {
                extend(&mut steps, setup_container_network(network));
            },
            None => {
                assert(before + Seq::<StepView>::empty() =~= before);
            },
        }
        Execution::new(steps)
    }

    /// The state of a container whose plan is under way: it is created once every
    /// step has been done.
    pub fn spawned(&self, execution: &Execution) -> (r: Option<ContainerState>)
        requires
            execution.wf(),
        ensures
            r == (if execution.done == execution.steps@.len() {
                Some(ContainerState::Created)
            } else {
                None
            }),
    {
        if execution.is_finished() {
            Some(ContainerState::Created)
        } else {
            None
        }
    }

    /// Plan the cleanup that stopping a container takes: the removal of its cgroup.
    pub fn cleanup(&self, container_id: &str) -> (step: Step)
        ensures
            step@ == (StepView::RemoveCgroup { path: cgroup_path(container_id@) }),
    {
        let limits = CgroupLimits::from_resource_spec(&ResourceSpec::default());
        CgroupManager::new(container_id, limits).destroy()
    }

    /// Stop a container, given how its cleanup went. Cleanup is best-effort: the
    /// container is stopped either way, and a failed cleanup is handed back beside
    /// the state so that it can be reported.
    pub fn stop_container(
        &self,
        container_id: &str,
        cleanup: Result<(), StepFailure>,
    ) -> (r: (ContainerState, Option<RuntimeError>))
        ensures
            r.0 == (ContainerState::Stopped { exit_code: 0 }),
            match cleanup {
                Ok(()) => r.1 is None,
                Err(f) => r.1 is Some && (r.1->Some_0 matches RuntimeError::CgroupError {
                    controller,
                    reason,
                } && controller@ == "cgroup"@ && reason@ == "rmdir "@ + cgroup_path(container_id@)
                    + ": "@ + f.reason@),
            },
    {
        let warning = match cleanup {
            Ok(()) => None,
            Err(f) => Some(self.cleanup(container_id).error(f.reason)),
        };
        (ContainerState::Stopped { exit_code: 0 }, warning)
    }

    /// Get the state of a container, given whether its rootfs directory exists.
    pub fn container_state(&self, rootfs_exists: bool) -> (s: ContainerState)
        ensures
            match s {
                ContainerState::Created => rootfs_exists,
                ContainerState::Failed { reason } => !rootfs_exists && reason@
                    == "container directory not found"@,
                _ => false,
            },
    {
        if rootfs_exists {
            ContainerState::Created
        } else {
            ContainerState::Failed { reason: owned("container directory not found") }
        }
    }
}

// ---------------------------------------------------------------------------
// What a spawn plan comes to
// ---------------------------------------------------------------------------

/// Where the parts of a spawn plan lie in it.
proof fn plan_parts(state_dir: Seq<char>, c: ContainerSpec) -> (ends: (int, int, int, int))
    ensures
        ({
            let all = spawn_steps(state_dir, c);
            let rootfs = rootfs_of(state_dir, c.id@);
            let (spaces, mounted, switched, filtered) = ends;
            let net = match c.network {
                Some(n) => network_steps(n),
                None => Seq::empty(),
            };
            &&& spaces == 11 + namespace_steps(c.namespaces).len()
            &&& mounted == spaces + 3
            &&& switched == mounted + (if c.namespaces.mount {
                6int
            } else {
                0
            })
            &&& filtered == switched + 2
            &&& all.len() == filtered + net.len()
            &&& forall|i: int| 0 <= i < 7 ==> #[trigger] all[i] == rootfs_steps(rootfs)[i]
            &&& forall|i: int|
                7 <= i < 11 ==> #[trigger] all[i] == cgroup_steps(
                    cgroup_path(c.id@),
                    CgroupLimits::of(c.resources),
                )[i - 7]
            &&& forall|i: int|
                11 <= i < spaces ==> #[trigger] all[i] == namespace_steps(c.namespaces)[i - 11]
            &&& forall|i: int|
                spaces <= i < mounted ==> #[trigger] all[i] == mount_steps(
                    rootfs,
                    true,
                    true,
                    true,
                )[i - spaces]
            &&& forall|i: int|
                mounted <= i < switched ==> #[trigger] all[i] == pivot_steps(rootfs)[i - mounted]
            &&& forall|i: int|
                switched <= i < filtered ==> #[trigger] all[i] == filter_steps(c.seccomp)[i
                    - switched]
            &&& forall|i: int| filtered <= i < all.len() ==> #[trigger] all[i] == net[i - filtered]
        }),
{
    let rootfs = rootfs_of(state_dir, c.id@);
    let head = rootfs_steps(rootfs) + cgroup_steps(cgroup_path(c.id@), CgroupLimits::of(c.resources));
    let spaces = namespace_steps(c.namespaces);
    let mounting = mount_steps(rootfs, true, true, true);
    let pivot = if c.namespaces.mount {
        pivot_steps(rootfs)
    } else {
        Seq::empty()
    };
    let filter = filter_steps(c.seccomp);
    let net = match c.network {
        Some(n) => network_steps(n),
        None => Seq::empty(),
    };
    assert(spawn_steps(state_dir, c) == head + spaces + mounting + pivot + filter + net);
    assert(head.len() == 11);
    assert(mounting.len() == 3);
    let e1 = 11 + spaces.len() as int;
    let e2 = e1 + 3;
    let e3 = e2 + pivot.len() as int;
    (e1, e2, e3, e3 + 2)
}

/// A plan writes one value to a file, and writes it once.
pub open spec fn writes_once(plan: Seq<StepView>, path: Seq<char>, value: Seq<char>) -> bool {
    &&& exists|i: int|
        0 <= i < plan.len() && (#[trigger] plan[i]) is WriteController
            && plan[i]->WriteController_path == path && plan[i]->value == value
    &&& forall|i: int, j: int|
        0 <= i < plan.len() && 0 <= j < plan.len() && (#[trigger] plan[i]) is WriteController && (
        #[trigger] plan[j]) is WriteController && plan[i]->WriteController_path == path
            && plan[j]->WriteController_path == path ==> i == j
}

/// A container is held to what it asked for: the plan writes to the `memory.max` of its
/// cgroup, once, the bytes of the memory asked for, to its `cpu.max` a hundred
/// microseconds of every hundred milliseconds per millicore, and to its `pids.max` 512;
/// where it asked for no memory or CPU in particular, that there is no such limit.
pub proof fn containers_are_held_to_their_request(state_dir: Seq<char>, c: ContainerSpec)
    requires
        c.representable(),
        c.id@.len() > 0,
        c.id@[0] != '/',
        c.id@.last() != '/',
    ensures
        ({
            let plan = spawn_steps(state_dir, c);
            let dir = "/sys/fs/cgroup/leviathan/"@ + c.id@;
            &&& writes_once(
                plan,
                dir + "/memory.max"@,
                if c.resources.memory_mib == 0 {
                    "max"@
                } else {
                    decimal((c.resources.memory_mib * 1_048_576) as nat)
                },
            )
            &&& writes_once(
                plan,
                dir + "/cpu.max"@,
                if c.resources.cpu_millicores == 0 {
                    "max 100000"@
                } else {
                    decimal((c.resources.cpu_millicores * 100) as nat) + " 100000"@
                },
            )
            &&& writes_once(plan, dir + "/pids.max"@, "512"@)
        }),
{
    let plan = spawn_steps(state_dir, c);
    let dir = "/sys/fs/cgroup/leviathan/"@ + c.id@;
    let limits = CgroupLimits::of(c.resources);
    let (spaces, mounted, switched, filtered) = plan_parts(state_dir, c);
    cgroups_are_named_after_their_container(c.id@);
    assert(cgroup_path(c.id@) == dir);
    assert(dir.last() == c.id@.last());
    limits_follow_from_the_request(c.resources);
    reveal_strlit("cpu.max");
    reveal_strlit("memory.max");
    reveal_strlit("pids.max");
    reveal_strlit("/cpu.max");
    reveal_strlit("/memory.max");
    reveal_strlit("/pids.max");
    joining_separates_once(dir, "cpu.max"@);
    joining_separates_once(dir, "memory.max"@);
    joining_separates_once(dir, "pids.max"@);
    assert(dir.push('/') + "cpu.max"@ =~= dir + "/cpu.max"@);
    assert(dir.push('/') + "memory.max"@ =~= dir + "/memory.max"@);
    assert(dir.push('/') + "pids.max"@ =~= dir + "/pids.max"@);
    let own = cgroup_steps(cgroup_path(c.id@), limits);
    each_controller_gets_its_own_limit(cgroup_path(c.id@), limits, 1);
    each_controller_gets_its_own_limit(cgroup_path(c.id@), limits, 2);
    each_controller_gets_its_own_limit(cgroup_path(c.id@), limits, 3);
    assert(plan[7] == own[0] && plan[8] == own[1] && plan[9] == own[2] && plan[10] == own[3]);
    assert forall|i: int| 0 <= i < plan.len() && (#[trigger] plan[i]) is WriteController implies 8
        <= i <= 10 by {
        if i < 7 {
            assert(plan[i] == rootfs_steps(rootfs_of(state_dir, c.id@))[i]);
        } else if i >= 11 && i < spaces {
            assert(plan[i] == namespace_steps(c.namespaces)[i - 11]);
        } else if i >= spaces && i < mounted {
            assert(plan[i] is Mount);
        } else if i >= mounted && i < switched {
            assert(plan[i] == pivot_steps(rootfs_of(state_dir, c.id@))[i - mounted]);
        } else if i >= switched && i < filtered {
            assert(plan[i] == filter_steps(c.seccomp)[i - switched]);
        }
    }
    assert(plan[8]->WriteController_path == dir + "/cpu.max"@);
    assert(plan[9]->WriteController_path == dir + "/memory.max"@);
    assert(plan[10]->WriteController_path == dir + "/pids.max"@);
    assert((dir + "/cpu.max"@).len() != (dir + "/memory.max"@).len());
    assert((dir + "/cpu.max"@).len() != (dir + "/pids.max"@).len());
    assert((dir + "/memory.max"@).len() != (dir + "/pids.max"@).len());
}

/// A container is isolated before anything is set up inside: the plan has exactly one step
/// that enters namespaces, those the container asked for, unless it asked for none; it
/// comes after the cgroup was made and limited, and before every mount, the syscall
/// filter and all network setup.
pub proof fn containers_are_isolated_as_asked(state_dir: Seq<char>, c: ContainerSpec, i: int)
    requires
        0 <= i < spawn_steps(state_dir, c).len(),
    ensures
        ({
            let plan = spawn_steps(state_dir, c);
            let n = c.namespaces;
            let wanted = n.pid || n.net || n.uts || n.mount || n.ipc;
            let later = |s: StepView|
                s is Mount || s is PivotRoot || s is NoNewPrivileges || s is InstallFilter || s
                    is RunIp || s is MoveInterface;
            &&& plan[i] is Unshare ==> wanted && plan[i]->namespaces == n
            &&& wanted ==> exists|k: int| 0 <= k < plan.len() && (#[trigger] plan[k]) is Unshare
            &&& plan[i] is Unshare ==> forall|k: int|
                0 <= k < plan.len() && (#[trigger] plan[k]) is Unshare ==> k == i
            &&& plan[i] is Unshare ==> forall|k: int|
                0 <= k < plan.len() && ((#[trigger] plan[k]) is CreateCgroup || plan[k]
                    is WriteController) ==> k < i
            &&& plan[i] is Unshare ==> forall|k: int|
                0 <= k < plan.len() && later(#[trigger] plan[k]) ==> k > i
        }),
{
    let plan = spawn_steps(state_dir, c);
    let (spaces, mounted, switched, filtered) = plan_parts(state_dir, c);
    requested_namespaces_are_entered(c.namespaces);
    if spaces == 12 {
        assert(plan[11] == namespace_steps(c.namespaces)[0]);
    }
    assert forall|k: int| 0 <= k < plan.len() implies {
        &&& k < 7 ==> (#[trigger] plan[k]) is MakeDir
        &&& k == 7 ==> plan[k] is CreateCgroup
        &&& 8 <= k < 11 ==> plan[k] is WriteController
        &&& k >= spaces ==> !(plan[k] is Unshare) && !(plan[k] is CreateCgroup) && !(plan[k]
            is WriteController)
    } by {
        if k < 7 {
            assert(plan[k] == rootfs_steps(rootfs_of(state_dir, c.id@))[k]);
        } else if k < 11 {
            assert(plan[k] == cgroup_steps(cgroup_path(c.id@), CgroupLimits::of(c.resources))[k
                - 7]);
        } else if k >= spaces && k < mounted {
            assert(plan[k] is Mount);
        } else if k >= mounted && k < switched {
            assert(plan[k] == pivot_steps(rootfs_of(state_dir, c.id@))[k - mounted]);
        } else if k >= switched && k < filtered {
            assert(plan[k] == filter_steps(c.seccomp)[k - switched]);
        }
    }
}

/// The container's own filter is what the plan installs: there is exactly one such step,
/// directly after privileges were given up for good, and it decides on every syscall as
/// the container's configuration says.
pub proof fn containers_run_under_their_filter(state_dir: Seq<char>, c: ContainerSpec, nr: u32)
    requires
        c.representable(),
    ensures
        ({
            let plan = spawn_steps(state_dir, c);
            exists|k: int|
                {
                    &&& 1 <= k < plan.len()
                    &&& (#[trigger] plan[k]) is InstallFilter
                    &&& plan[k - 1] is NoNewPrivileges
                    &&& forall|j: int|
                        0 <= j < plan.len() && (#[trigger] plan[j]) is InstallFilter ==> j == k
                    &&& ({
                        let decision = run(plan[k]->program, nr);
                        let blocked = c.seccomp.blocked_syscalls@;
                        let listed = exists|i: int|
                            0 <= i < blocked.len() && (#[trigger] blocked[i]).number == nr;
                        &&& blocked.len() > 0 && !listed ==> decision == Some(0x7fff_0000u32)
                        &&& listed && c.seccomp.kill_on_violation ==> decision == Some(
                            0x8000_0000u32,
                        )
                        &&& listed && !c.seccomp.kill_on_violation ==> decision == Some(
                            0x0005_0001u32,
                        )
                    })
                }
        }),
{
    let plan = spawn_steps(state_dir, c);
    let (spaces, mounted, switched, filtered) = plan_parts(state_dir, c);
    installed_filter_decides_by_number(c.seccomp, nr);
    let k = switched + 1;
    assert(plan[k] == filter_steps(c.seccomp)[1]);
    assert(plan[k - 1] == filter_steps(c.seccomp)[0]);
    assert forall|j: int| 0 <= j < plan.len() && (#[trigger] plan[j]) is InstallFilter implies j
        == k by {
        if j < 7 {
            assert(plan[j] == rootfs_steps(rootfs_of(state_dir, c.id@))[j]);
        } else if j < 11 {
            assert(plan[j] == cgroup_steps(cgroup_path(c.id@), CgroupLimits::of(c.resources))[j
                - 7]);
        } else if j < spaces {
            assert(plan[j] == namespace_steps(c.namespaces)[j - 11]);
        } else if j < mounted {
            assert(plan[j] is Mount);
        } else if j < switched {
            assert(plan[j] == pivot_steps(rootfs_of(state_dir, c.id@))[j - mounted]);
        } else if j < filtered {
            assert(plan[j] == filter_steps(c.seccomp)[j - switched]);
        }
    }
}

/// A container with a mount namespace of its own ends up on its own root filesystem; one
/// without never switches the root. Its root filesystem is named after it.
pub proof fn containers_get_their_own_root(state_dir: Seq<char>, c: ContainerSpec)
    requires
        state_dir.len() > 0,
        state_dir.last() != '/',
        c.id@.len() > 0,
        c.id@[0] != '/',
        c.id@.last() != '/',
    ensures
        ({
            let plan = spawn_steps(state_dir, c);
            let root = state_dir + "/"@ + c.id@ + "/rootfs"@;
            &&& rootfs_of(state_dir, c.id@) == root
            &&& c.namespaces.mount <==> exists|k: int|
                0 <= k < plan.len() && (#[trigger] plan[k]) is PivotRoot
            &&& forall|k: int|
                0 <= k < plan.len() && (#[trigger] plan[k]) is PivotRoot ==> plan[k]->new_root
                    == root && plan[k]->put_old == root + "/old_root"@
        }),
{
    let plan = spawn_steps(state_dir, c);
    let (spaces, mounted, switched, filtered) = plan_parts(state_dir, c);
    let root = state_dir + "/"@ + c.id@ + "/rootfs"@;
    reveal_strlit("/");
    reveal_strlit("rootfs");
    reveal_strlit("/rootfs");
    reveal_strlit("old_root");
    reveal_strlit("/old_root");
    joining_separates_once(state_dir, c.id@);
    let dir = joined(state_dir, c.id@);
    assert(dir =~= state_dir + "/"@ + c.id@);
    joining_separates_once(dir, "rootfs"@);
    assert(rootfs_of(state_dir, c.id@) =~= root);
    assert(root.last() == 's');
    joining_separates_once(root, "old_root"@);
    assert(joined(root, "old_root"@) =~= root + "/old_root"@);
    if c.namespaces.mount {
        assert(plan[mounted + 2] == pivot_steps(root)[2]);
    }
    assert forall|k: int| 0 <= k < plan.len() && (#[trigger] plan[k]) is PivotRoot implies {
        &&& c.namespaces.mount
        &&& plan[k]->new_root == root
        &&& plan[k]->put_old == root + "/old_root"@
    } by {
        if k < 7 {
            assert(plan[k] == rootfs_steps(root)[k]);
        } else if k < 11 {
            assert(plan[k] == cgroup_steps(cgroup_path(c.id@), CgroupLimits::of(c.resources))[k
                - 7]);
        } else if k < spaces {
            assert(plan[k] == namespace_steps(c.namespaces)[k - 11]);
        } else if k < mounted {
            assert(plan[k] is Mount);
        } else if k < switched {
            assert(plan[k] == pivot_steps(root)[k - mounted]);
        } else if k < filtered {
            assert(plan[k] == filter_steps(c.seccomp)[k - switched]);
        }
    }
}

/// What is mounted into a container: its `/proc` and `/sys`, below its own root and
/// hardened, and the host's `/dev`; besides these only its root filesystem, onto itself.
pub proof fn containers_mount_only_below_their_root(state_dir: Seq<char>, c: ContainerSpec, i: int)
    requires
        0 <= i < spawn_steps(state_dir, c).len(),
        spawn_steps(state_dir, c)[i] is Mount,
    ensures
        ({
            let s = spawn_steps(state_dir, c)[i];
            let root = rootfs_of(state_dir, c.id@);
            ||| s->source == "proc"@ && s->Mount_target == joined(root, "proc"@) && s->fstype
                == Some("proc"@) && s->flags.no_suid && s->flags.no_exec && s->flags.no_dev
            ||| s->source == "sysfs"@ && s->Mount_target == joined(root, "sys"@) && s->fstype
                == Some("sysfs"@) && s->flags.no_suid && s->flags.no_exec && s->flags.no_dev
                && s->flags.read_only
            ||| s->source == "/dev"@ && s->Mount_target == joined(root, "dev"@) && s->flags.bind
            ||| s->source == root && s->Mount_target == root && s->flags.bind
                && c.namespaces.mount
        }),
        exists|k: int|
            0 <= k < spawn_steps(state_dir, c).len() && (
            #[trigger] spawn_steps(state_dir, c)[k]) is Mount && spawn_steps(
                state_dir,
                c,
            )[k]->source == "proc"@,
        exists|k: int|
            0 <= k < spawn_steps(state_dir, c).len() && (
            #[trigger] spawn_steps(state_dir, c)[k]) is Mount && spawn_steps(
                state_dir,
                c,
            )[k]->source == "sysfs"@,
        exists|k: int|
            0 <= k < spawn_steps(state_dir, c).len() && (
            #[trigger] spawn_steps(state_dir, c)[k]) is Mount && spawn_steps(
                state_dir,
                c,
            )[k]->source == "/dev"@,
{
    let plan = spawn_steps(state_dir, c);
    let root = rootfs_of(state_dir, c.id@);
    let (spaces, mounted, switched, filtered) = plan_parts(state_dir, c);
    let mounting = mount_steps(root, true, true, true);
    assert(plan[spaces] == mounting[0]);
    assert(plan[spaces + 1] == mounting[1]);
    assert(plan[spaces + 2] == mounting[2]);
    if i < 7 {
        assert(plan[i] == rootfs_steps(root)[i]);
    } else if i < 11 {
        assert(plan[i] == cgroup_steps(cgroup_path(c.id@), CgroupLimits::of(c.resources))[i - 7]);
    } else if i < spaces {
        assert(plan[i] == namespace_steps(c.namespaces)[i - 11]);
    } else if i < mounted {
        assert(plan[i] == mounting[i - spaces]);
    } else if i < switched {
        assert(plan[i] == pivot_steps(root)[i - mounted]);
    } else if i < filtered {
        assert(plan[i] == filter_steps(c.seccomp)[i - switched]);
    }
}

/// The network setup of a container's configuration ends the plan; without one there is
/// no network setup in it at all.
pub proof fn network_setup_comes_last(state_dir: Seq<char>, c: ContainerSpec, i: int)
    requires
        0 <= i < spawn_steps(state_dir, c).len(),
    ensures
        ({
            let plan = spawn_steps(state_dir, c);
            let net = |s: StepView| s is RunIp || s is MoveInterface;
            &&& c.network is None ==> !net(plan[i])
            &&& c.network matches Some(n) ==> {
                let start = plan.len() - network_steps(n).len();
                &&& start >= 0
                &&& plan.skip(start) == network_steps(n)
                &&& net(plan[i]) <==> i >= start
            }
        }),
{
    let plan = spawn_steps(state_dir, c);
    let root = rootfs_of(state_dir, c.id@);
    let (spaces, mounted, switched, filtered) = plan_parts(state_dir, c);
    if i < 7 {
        assert(plan[i] == rootfs_steps(root)[i]);
    } else if i < 11 {
        assert(plan[i] == cgroup_steps(cgroup_path(c.id@), CgroupLimits::of(c.resources))[i - 7]);
    } else if i < spaces {
        assert(plan[i] == namespace_steps(c.namespaces)[i - 11]);
    } else if i < mounted {
        assert(plan[i] is Mount);
    } else if i < switched {
        assert(plan[i] == pivot_steps(root)[i - mounted]);
    } else if i < filtered {
        assert(plan[i] == filter_steps(c.seccomp)[i - switched]);
    }
    if c.network is Some {
        let n = c.network->Some_0;
        assert(plan.skip(filtered) =~= network_steps(n));
        if i >= filtered {
            container_end_is_configured_inside(n, i - filtered);
            assert(plan[i] == network_steps(n)[i - filtered]);
        }
    }
}

/// What a machine could offer can be asked for: any request for up to a million CPUs and a
/// billion mebibytes of memory, with up to a million blocked syscalls, has a plan.
pub proof fn ordinary_requests_have_a_plan(c: ContainerSpec)
    requires
        c.resources.cpu_millicores <= 1_000_000_000,
        c.resources.memory_mib <= 1_000_000_000,
        c.seccomp.blocked_syscalls@.len() <= 1_000_000,
    ensures
        c.representable(),
{
}

/// Stopping a container removes the very directory that spawning it created.
pub proof fn stopping_removes_what_spawning_created(state_dir: Seq<char>, c: ContainerSpec)
    ensures
        exists|i: int|
            0 <= i < spawn_steps(state_dir, c).len() && #[trigger] spawn_steps(state_dir, c)[i] == (
            StepView::CreateCgroup { path: cgroup_path(c.id@) }),
{
    let ends = plan_parts(state_dir, c);
    each_controller_gets_its_own_limit(cgroup_path(c.id@), CgroupLimits::of(c.resources), 0);
    assert(spawn_steps(state_dir, c)[7] == cgroup_steps(
        cgroup_path(c.id@),
        CgroupLimits::of(c.resources),
    )[0]);
}

/// What is carried out when a container is spawned holds it to its request, isolates it as
/// asked, and starts from nothing done.
pub proof fn spawning_plans_for_the_container(rt: ContainerRuntime, c: ContainerSpec, x: Execution)
    requires
        c.representable(),
        c.id@.len() > 0,
        c.id@[0] != '/',
        c.id@.last() != '/',
        call_ensures(ContainerRuntime::spawn_container, (&rt, &c), x),
    ensures
        x.done == 0,
        ({
            let plan = step_views(x.steps@);
            let dir = "/sys/fs/cgroup/leviathan/"@ + c.id@;
            let n = c.namespaces;
            &&& c.resources.memory_mib > 0 ==> writes_once(
                plan,
                dir + "/memory.max"@,
                decimal((c.resources.memory_mib * 1_048_576) as nat),
            )
            &&& c.resources.cpu_millicores > 0 ==> writes_once(
                plan,
                dir + "/cpu.max"@,
                decimal((c.resources.cpu_millicores * 100) as nat) + " 100000"@,
            )
            &&& writes_once(plan, dir + "/pids.max"@, "512"@)
            &&& n.pid || n.net || n.uts || n.mount || n.ipc ==> exists|k: int|
                0 <= k < plan.len() && #[trigger] plan[k] == (StepView::Unshare { namespaces: n })
            &&& exists|k: int| 0 <= k < plan.len() && (#[trigger] plan[k]) is InstallFilter
            &&& c.network matches Some(net) ==> network_steps(net).is_suffix_of(plan)
        }),
{
    let plan = spawn_steps(rt.state_dir@, c);
    let n = c.namespaces;
    containers_are_held_to_their_request(rt.state_dir@, c);
    let (spaces, mounted, switched, filtered) = plan_parts(rt.state_dir@, c);
    containers_are_isolated_as_asked(rt.state_dir@, c, 0);
    if n.pid || n.net || n.uts || n.mount || n.ipc {
        let k = choose|k: int| 0 <= k < plan.len() && (#[trigger] plan[k]) is Unshare;
        containers_are_isolated_as_asked(rt.state_dir@, c, k);
        assert(plan[k] == (StepView::Unshare { namespaces: n }));
    }
    containers_run_under_their_filter(rt.state_dir@, c, 0);
    if c.network is Some {
        network_setup_comes_last(rt.state_dir@, c, 0);
        let net = network_steps(c.network->Some_0);
        let start = plan.len() - net.len();
        assert(plan.skip(start) =~= plan.subrange(start, plan.len() as int));
    }
}

/// Stopping a container ends in it being stopped, however its cleanup went; what is cleaned
/// up is the directory of its cgroup.
pub proof fn stopping_cleans_up(
    rt: ContainerRuntime,
    id: &str,
    cleanup: Result<(), StepFailure>,
    step: Step,
    r: (ContainerState, Option<RuntimeError>),
)
    requires
        call_ensures(ContainerRuntime::cleanup, (&rt, id), step),
        call_ensures(ContainerRuntime::stop_container, (&rt, id, cleanup), r),
        id@.len() > 0,
        id@[0] != '/',
    ensures
        step@ == (StepView::RemoveCgroup { path: "/sys/fs/cgroup/leviathan/"@ + id@ }),
        r.0 is Stopped,
        r.1 is None <==> cleanup is Ok,
{
    cgroups_are_named_after_their_container(id@);
}

} // verus!
