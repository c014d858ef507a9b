//! cgroups v2 resource control for container processes.

use vstd::prelude::*;
use vstd::string::*;

use crate::model::resources::ResourceSpec;
use crate::runtime::paths::{join, joined, joining_separates_once};
use crate::runtime::steps::{step_views, Step, StepView};
use crate::text::{decimal, decimal_string, owned, push_decimal, IntoText};

verus! {

/// The default CPU period in microseconds (100ms).
pub const DEFAULT_CPU_PERIOD_US: u64 = 100_000;

/// The number of bytes in a mebibyte.
pub const BYTES_PER_MIB: u64 = 1_048_576;

/// Resource limits for a container, expressed in cgroups v2 terms. Zero means no
/// limit.
#[derive(Debug, Clone, Copy, PartialEq, Eq, Structural)]
pub struct CgroupLimits {
    /// CPU quota in millicores (1000 = 1 full CPU core).
    pub cpu_millicores: u64,
    /// Memory limit in bytes.
    pub memory_bytes: u64,
    /// Maximum number of processes.
    pub pids_max: u64,
}

/// A limit in decimal, or "max" if there is none.
pub open spec fn limit_text(limit: u64) -> Seq<char> {
    if limit == 0 {
        "max"@
    } else {
        decimal(limit as nat)
    }
}

impl CgroupLimits {
    /// The quota of `cpu.max` in microseconds per period.
    pub open spec fn quota_us(self) -> int {
        self.cpu_millicores * 100_000 / 1000
    }

    /// The value of `cpu.max`: quota and period in microseconds.
    pub open spec fn cpu_max_text(self) -> Seq<char> {
        if self.cpu_millicores == 0 {
            "max 100000"@
        } else {
            decimal(self.quota_us() as nat) + " "@ + decimal(100_000)
        }
    }

    /// The limits of a resource specification.
    pub open spec fn of(spec_: ResourceSpec) -> CgroupLimits {
        CgroupLimits {
            cpu_millicores: spec_.cpu_millicores,
            memory_bytes: (spec_.memory_mib * 1_048_576) as u64,
            pids_max: 512,
        }
    }

    /// Create limits from a resource specification, with the memory in bytes and
    /// at most 512 processes.
    pub fn from_resource_spec(resources: &ResourceSpec) -> (l: Self)
        requires
            resources.memory_mib * 1_048_576 <= u64::MAX,
        ensures
            l == CgroupLimits::of(*resources),
    {
        CgroupLimits {
            cpu_millicores: resources.cpu_millicores,
            memory_bytes: resources.memory_mib * BYTES_PER_MIB,
            pids_max: 512,
        }
    }

    /// Format the CPU limit for `cpu.max`. A full core is a quota as long as the
    /// period.
    pub fn cpu_max_value(&self) -> (s: String)
        requires
            self.cpu_millicores * 100_000 <= u64::MAX,
        ensures
            s@ == self.cpu_max_text(),
    {
        if self.cpu_millicores == 0 {
            return owned("max 100000");
        }
        let quota_us: u64 = (self.cpu_millicores * DEFAULT_CPU_PERIOD_US) / 1000;
        let mut s = decimal_string(quota_us);
        s.append(" ");
        push_decimal(&mut s, DEFAULT_CPU_PERIOD_US);
        s
    }

    /// Format the memory limit for `memory.max`.
    pub fn memory_max_value(&self) -> (s: String)
        ensures
            s@ == limit_text(self.memory_bytes),
    {
        if self.memory_bytes == 0 {
            owned("max")
        } else {
            decimal_string(self.memory_bytes)
        }
    }

    /// Format the PID limit for `pids.max`.
    pub fn pids_max_value(&self) -> (s: String)
        ensures
            s@ == limit_text(self.pids_max),
    {
        if self.pids_max == 0 {
            owned("max")
        } else {
            decimal_string(self.pids_max)
        }
    }
}

/// The directory of a container's cgroup.
pub open spec fn cgroup_path(name: Seq<char>) -> Seq<char> {
    joined(joined("/sys/fs/cgroup"@, "leviathan"@), name)
}

/// Manages the cgroup of a container.
#[derive(Debug)]
pub struct CgroupManager {
    /// Name of this cgroup, used as directory name.
    pub name: String,
    /// Full path to the cgroup directory.
    pub path: String,
    /// Configured resource limits.
    pub limits: CgroupLimits,
}

/// The write of a controller file.
pub open spec fn controller_write(path: Seq<char>, file: Seq<char>, value: Seq<char>) -> StepView {
    StepView::WriteController { path: joined(path, file), controller: file, value }
}

/// The steps that create a cgroup with its limits.
pub open spec fn cgroup_steps(path: Seq<char>, limits: CgroupLimits) -> Seq<StepView> {
    seq![
        StepView::CreateCgroup { path },
        controller_write(path, "cpu.max"@, limits.cpu_max_text()),
        controller_write(path, "memory.max"@, limit_text(limits.memory_bytes)),
        controller_write(path, "pids.max"@, limit_text(limits.pids_max)),
    ]
}

impl CgroupManager {
    /// Create a manager for the given container. Nothing is created on disk.
    pub fn new(name: impl IntoText, limits: CgroupLimits) -> (m: Self)
        ensures
            m.name@ == name.text(),
            m.path@ == cgroup_path(name.text()),
            m.limits == limits,
    {
        let name = name.into_text();
        let parent = join("/sys/fs/cgroup", "leviathan");
        let path = join(parent.as_str(), name.as_str());
        CgroupManager { name, path, limits }
    }

    /// Return the cgroup directory path.
    pub fn path(&self) -> (p: &str)
        ensures
            p@ == self.path@,
    {
        self.path.as_str()
    }

    /// Return the cgroup name.
    pub fn name(&self) -> (n: &str)
        ensures
            n@ == self.name@,
    {
        self.name.as_str()
    }

    /// Plan the write of a controller file.
    fn write_controller(&self, file: &str, value: String) -> (step: Step)
        ensures
            step@ == controller_write(self.path@, file@, value@),
    {
        Step::WriteController {
            path: join(self.path.as_str(), file),
            controller: owned(file),
            value,
        }
    }

    /// Plan the creation of the cgroup directory and the writes of its limits.
    pub fn create(&self) -> (steps: Vec<Step>)
        requires
            self.limits.cpu_millicores * 100_000 <= u64::MAX,
        ensures
            step_views(steps@) == cgroup_steps(self.path@, self.limits),
    {
        let mut steps: Vec<Step> = Vec::new();
        steps.push(Step::CreateCgroup { path: self.path.clone() });
        steps.push(self.write_controller("cpu.max", self.limits.cpu_max_value()));
        steps.push(self.write_controller("memory.max", self.limits.memory_max_value()));
        steps.push(self.write_controller("pids.max", self.limits.pids_max_value()));
        assert(step_views(steps@) =~= cgroup_steps(self.path@, self.limits));
        steps
    }

    /// Plan the assignment of a process to this cgroup.
    pub fn assign_pid(&self, pid: u32) -> (step: Step)
        ensures
            step@ == controller_write(self.path@, "cgroup.procs"@, decimal(pid as nat)),
    {
        self.write_controller("cgroup.procs", decimal_string(pid as u64))
    }

    /// Plan the removal of the cgroup directory.
    pub fn destroy(&self) -> (step: Step)
        ensures
            step@ == (StepView::RemoveCgroup { path: self.path@ }),
    {
        Step::RemoveCgroup { path: self.path.clone() }
    }
}

/// A container's cgroup directory is named after it.
pub proof fn cgroups_are_named_after_their_container(name: Seq<char>)
    requires
        name.len() == 0 || name[0] != '/',
    ensures
        cgroup_path(name) == "/sys/fs/cgroup/leviathan/"@ + name,
{
    reveal_strlit("/sys/fs/cgroup");
    reveal_strlit("leviathan");
    reveal_strlit("/sys/fs/cgroup/leviathan/");
    joining_separates_once("/sys/fs/cgroup"@, "leviathan"@);
    let parent = joined("/sys/fs/cgroup"@, "leviathan"@);
    assert(parent.last() == 'n');
    joining_separates_once(parent, name);
    assert(parent.push('/') =~= "/sys/fs/cgroup/leviathan/"@);
}

proof fn period_text()
    ensures
        decimal(100_000) == "100000"@,
        decimal(512) == "512"@,
{
    reveal_strlit("100000");
    reveal_strlit("512");
    reveal_with_fuel(decimal, 7);
    assert(decimal(100_000) =~= "100000"@);
    assert(decimal(512) =~= "512"@);
}

/// What the limits of a resource request come to: the CPU in millicores becomes a hundred
/// microseconds each of a period of a hundred milliseconds, the memory in MiB becomes
/// bytes, nothing asked for becomes no limit, and there may be 512 processes.
pub proof fn limits_follow_from_the_request(request: ResourceSpec)
    requires
        request.memory_mib * 1_048_576 <= u64::MAX,
    ensures
        request.memory_mib > 0 ==> limit_text(CgroupLimits::of(request).memory_bytes) == decimal(
            (request.memory_mib * 1_048_576) as nat,
        ),
        request.memory_mib == 0 ==> limit_text(CgroupLimits::of(request).memory_bytes) == "max"@,
        request.cpu_millicores > 0 ==> CgroupLimits::of(request).cpu_max_text() == decimal(
            (request.cpu_millicores * 100) as nat,
        ) + " 100000"@,
        request.cpu_millicores == 0 ==> CgroupLimits::of(request).cpu_max_text() == "max 100000"@,
        limit_text(CgroupLimits::of(request).pids_max) == "512"@,
{
    period_text();
    reveal_strlit(" ");
    reveal_strlit("100000");
    reveal_strlit(" 100000");
    assert(" "@ + "100000"@ =~= " 100000"@);
    let c = request.cpu_millicores as int;
    assert(c * 100_000 / 1000 == c * 100);
    let quota = decimal((request.cpu_millicores * 100) as nat);
    assert(quota + " "@ + "100000"@ =~= quota + (" "@ + "100000"@));
}

/// Creating a cgroup makes its directory first, and then each controller file gets its
/// own limit, once: `cpu.max` that on the CPU, `memory.max` that on the memory and
/// `pids.max` that on the number of processes.
pub proof fn each_controller_gets_its_own_limit(path: Seq<char>, limits: CgroupLimits, k: int)
    requires
        0 <= k < cgroup_steps(path, limits).len(),
    ensures
        cgroup_steps(path, limits).len() == 4,
        cgroup_steps(path, limits)[0] == (StepView::CreateCgroup { path }),
        k > 0 ==> cgroup_steps(path, limits)[k] is WriteController,
        ({
            let step = cgroup_steps(path, limits)[k];
            let file = step->controller;
            step is WriteController ==> {
                &&& step->WriteController_path == joined(path, file)
                &&& file == "cpu.max"@ || file == "memory.max"@ || file == "pids.max"@
                &&& k == 1 <==> file == "cpu.max"@
                &&& k == 2 <==> file == "memory.max"@
                &&& k == 3 <==> file == "pids.max"@
                &&& file == "cpu.max"@ && limits.cpu_millicores > 0 ==> step->value == decimal(
                    (limits.cpu_millicores * 100) as nat,
                ) + " 100000"@
                &&& file == "cpu.max"@ && limits.cpu_millicores == 0 ==> step->value
                    == "max 100000"@
                &&& file == "memory.max"@ && limits.memory_bytes > 0 ==> step->value == decimal(
                    limits.memory_bytes as nat,
                )
                &&& file == "memory.max"@ && limits.memory_bytes == 0 ==> step->value == "max"@
                &&& file == "pids.max"@ && limits.pids_max > 0 ==> step->value == decimal(
                    limits.pids_max as nat,
                )
                &&& file == "pids.max"@ && limits.pids_max == 0 ==> step->value == "max"@
            }
        }),
{
    reveal_strlit("cpu.max");
    reveal_strlit("memory.max");
    reveal_strlit("pids.max");
    assert("cpu.max"@.len() == 7 && "memory.max"@.len() == 10 && "pids.max"@.len() == 8);
    period_text();
    reveal_strlit(" ");
    reveal_strlit(" 100000");
    let c = limits.cpu_millicores as int;
    assert(c * 100_000 / 1000 == c * 100);
    let quota = decimal((c * 100) as nat);
    assert(quota + " "@ + "100000"@ =~= quota + " 100000"@) by {
        reveal_strlit("100000");
    }
}

/// From a request to what is written for it: the limits made of a request render its memory
/// in bytes, its CPU as a quota of a hundred milliseconds, and 512 processes.
pub proof fn limits_render_the_request(
    request: ResourceSpec,
    limits: CgroupLimits,
    memory: String,
    cpu: String,
    pids: String,
)
    requires
        request.memory_mib * 1_048_576 <= u64::MAX,
        call_ensures(CgroupLimits::from_resource_spec, (&request,), limits),
        call_ensures(CgroupLimits::memory_max_value, (&limits,), memory),
        call_ensures(CgroupLimits::cpu_max_value, (&limits,), cpu),
        call_ensures(CgroupLimits::pids_max_value, (&limits,), pids),
    ensures
        request.memory_mib > 0 ==> memory@ == decimal((request.memory_mib * 1_048_576) as nat),
        request.memory_mib == 0 ==> memory@ == "max"@,
        request.cpu_millicores > 0 ==> cpu@ == decimal((request.cpu_millicores * 100) as nat)
            + " 100000"@,
        request.cpu_millicores == 0 ==> cpu@ == "max 100000"@,
        pids@ == "512"@,
{
    limits_follow_from_the_request(request);
}

/// A manager writes its own limits below its own directory, the memory to `memory.max`, the
/// CPU to `cpu.max` and the number of processes to `pids.max`.
pub proof fn managers_write_their_own_limits(m: CgroupManager, steps: Vec<Step>, k: int)
    requires
        call_ensures(CgroupManager::create, (&m,), steps),
        0 <= k < steps@.len(),
    ensures
        steps@.len() == 4,
        steps@[0]@ == (StepView::CreateCgroup { path: m.path@ }),
        steps@[k]@ matches StepView::WriteController { path, controller, value } ==> {
            &&& path == joined(m.path@, controller)
            &&& controller == "memory.max"@ && m.limits.memory_bytes > 0 ==> value == decimal(
                m.limits.memory_bytes as nat,
            )
            &&& controller == "pids.max"@ && m.limits.pids_max > 0 ==> value == decimal(
                m.limits.pids_max as nat,
            )
            &&& controller == "cpu.max"@ && m.limits.cpu_millicores > 0 ==> value == decimal(
                (m.limits.cpu_millicores * 100) as nat,
            ) + " 100000"@
        },
{
    let views = step_views(steps@);
    assert(views.len() == 4);
    assert(views[k] == steps@[k]@);
    assert(views[0] == steps@[0]@);
    each_controller_gets_its_own_limit(m.path@, m.limits, k);
}

} // verus!
