//! What the runtime does to the host, as a list of steps.
//!
//! A lifecycle operation is first planned as a list of [`Step`]s. An
//! [`Execution`] hands them out in order, takes in how each went, and turns the
//! first failure into an error.

use vstd::prelude::*;
use vstd::string::*;

use crate::runtime::error::RuntimeError;
use crate::runtime::namespace::NamespaceConfig;
use crate::runtime::seccomp::BpfInstruction;
use crate::text::{owned, text_views};

verus! {

/// Options of a mount.
#[derive(Debug, Clone, Copy, PartialEq, Eq, Structural)]
pub struct MountFlags {
    /// Mount read-only.
    pub read_only: bool,
    /// Ignore set-user-ID bits.
    pub no_suid: bool,
    /// Do not allow execution.
    pub no_exec: bool,
    /// Do not allow device files.
    pub no_dev: bool,
    /// Bind an existing tree.
    pub bind: bool,
    /// Apply to the whole subtree.
    pub recursive: bool,
}

/// One thing to do to the host.
#[derive(Debug)]
pub enum Step {
    /// Create a cgroup directory with its parents.
    CreateCgroup { path: String },
    /// Write a value to a cgroup controller file.
    WriteController { path: String, controller: String, value: String },
    /// Remove a cgroup directory, if it exists.
    RemoveCgroup { path: String },
    /// Create a directory with its parents.
    MakeDir { path: String, operation: String },
    /// Unpack a tar archive into a directory.
    Extract { archive: String, target: String, operation: String },
    /// Mount a filesystem.
    Mount {
        source: String,
        target: String,
        fstype: Option<String>,
        flags: MountFlags,
        operation: String,
    },
    /// Make a mount the root and put the old root below it.
    PivotRoot { new_root: String, put_old: String },
    /// Change the working directory.
    ChangeDir { path: String },
    /// Detach a mount.
    Detach { target: String, operation: String },
    /// Remove a directory; failure does not matter.
    RemoveDir { path: String },
    /// Enter new namespaces.
    Unshare { namespaces: NamespaceConfig },
    /// Forbid gaining privileges.
    NoNewPrivileges,
    /// Install a syscall filter.
    InstallFilter { program: Vec<BpfInstruction> },
    /// Run the network configuration tool, in the container's network namespace or in
    /// the host's.
    RunIp { args: Vec<String>, in_container: bool, operation: String, must_succeed: bool },
    /// Move an interface from the host's network namespace into the container's.
    MoveInterface { interface: String, operation: String },
}

/// A step, as the specification sees it.
#[verifier::ext_equal]
pub enum StepView {
    CreateCgroup { path: Seq<char> },
    WriteController { path: Seq<char>, controller: Seq<char>, value: Seq<char> },
    RemoveCgroup { path: Seq<char> },
    MakeDir { path: Seq<char>, operation: Seq<char> },
    Extract { archive: Seq<char>, target: Seq<char>, operation: Seq<char> },
    Mount {
        source: Seq<char>,
        target: Seq<char>,
        fstype: Option<Seq<char>>,
        flags: MountFlags,
        operation: Seq<char>,
    },
    PivotRoot { new_root: Seq<char>, put_old: Seq<char> },
    ChangeDir { path: Seq<char> },
    Detach { target: Seq<char>, operation: Seq<char> },
    RemoveDir { path: Seq<char> },
    Unshare { namespaces: NamespaceConfig },
    NoNewPrivileges,
    InstallFilter { program: Seq<BpfInstruction> },
    RunIp { args: Seq<Seq<char>>, in_container: bool, operation: Seq<char>, must_succeed: bool },
    MoveInterface { interface: Seq<char>, operation: Seq<char> },
}

impl View for Step {
    type V = StepView;

    open spec fn view(&self) -> StepView {
        match *self {
            Step::CreateCgroup { path } => StepView::CreateCgroup { path: path@ },
            Step::WriteController { path, controller, value } => StepView::WriteController {
                path: path@,
                controller: controller@,
                value: value@,
            },
            Step::RemoveCgroup { path } => StepView::RemoveCgroup { path: path@ },
            Step::MakeDir { path, operation } => StepView::MakeDir {
                path: path@,
                operation: operation@,
            },
            Step::Extract { archive, target, operation } => StepView::Extract {
                archive: archive@,
                target: target@,
                operation: operation@,
            },
            Step::Mount { source, target, fstype, flags, operation } => StepView::Mount {
                source: source@,
                target: target@,
                fstype: match fstype {
                    Some(t) => Some(t@),
                    None => None,
                },
                flags,
                operation: operation@,
            },
            Step::PivotRoot { new_root, put_old } => StepView::PivotRoot {
                new_root: new_root@,
                put_old: put_old@,
            },
            Step::ChangeDir { path } => StepView::ChangeDir { path: path@ },
            Step::Detach { target, operation } => StepView::Detach {
                target: target@,
                operation: operation@,
            },
            Step::RemoveDir { path } => StepView::RemoveDir { path: path@ },
            Step::Unshare { namespaces } => StepView::Unshare { namespaces },
            Step::NoNewPrivileges => StepView::NoNewPrivileges,
            Step::InstallFilter { program } => StepView::InstallFilter { program: program@ },
            Step::RunIp { args, in_container, operation, must_succeed } => StepView::RunIp {
                args: text_views(args@),
                in_container,
                operation: operation@,
                must_succeed,
            },
            Step::MoveInterface { interface, operation } => StepView::MoveInterface {
                interface: interface@,
                operation: operation@,
            },
        }
    }
}

/// The views of a list of steps.
pub open spec fn step_views(steps: Seq<Step>) -> Seq<StepView> {
    Seq::new(steps.len(), |i: int| steps[i]@)
}

/// How a step failed.
#[derive(Debug)]
pub struct StepFailure {
    /// Whether a command ran and reported failure, as opposed to not being run.
    pub ran: bool,
    /// The operating system's or the command's own words.
    pub reason: String,
}

/// Whether the failure of a step can be passed over.
pub open spec fn tolerated(step: StepView, ran: bool) -> bool {
    match step {
        StepView::RemoveDir { .. } => true,
        StepView::RunIp { must_succeed, .. } => !must_succeed && ran,
        _ => false,
    }
}

/// The error that the failure of a step amounts to.
pub open spec fn is_failure_of(e: RuntimeError, step: StepView, reason: Seq<char>) -> bool {
    match step {
        StepView::CreateCgroup { path } => e matches RuntimeError::CgroupError {
            controller,
            reason: r,
        } && controller@ == "cgroup"@ && r@ == "mkdir "@ + path + ": "@ + reason,
        StepView::WriteController { path, controller: c, .. } =>
            e matches RuntimeError::CgroupError { controller, reason: r } && controller@ == c && r@
                == "write "@ + path + ": "@ + reason,
        StepView::RemoveCgroup { path } => e matches RuntimeError::CgroupError {
            controller,
            reason: r,
        } && controller@ == "cgroup"@ && r@ == "rmdir "@ + path + ": "@ + reason,
        StepView::MakeDir { operation: o, .. } => e matches RuntimeError::FilesystemError {
            operation,
            reason: r,
        } && operation@ == o && r@ == reason,
        StepView::Extract { operation: o, .. } => e matches RuntimeError::FilesystemError {
            operation,
            reason: r,
        } && operation@ == o && r@ == reason,
        StepView::Mount { operation: o, .. } => e matches RuntimeError::FilesystemError {
            operation,
            reason: r,
        } && operation@ == o && r@ == reason,
        StepView::PivotRoot { .. } => e matches RuntimeError::FilesystemError {
            operation,
            reason: r,
        } && operation@ == "pivot_root"@ && r@ == reason,
        StepView::ChangeDir { path } => e matches RuntimeError::FilesystemError {
            operation,
            reason: r,
        } && operation@ == "chdir "@ + path && r@ == reason,
        StepView::Detach { operation: o, .. } => e matches RuntimeError::FilesystemError {
            operation,
            reason: r,
        } && operation@ == o && r@ == reason,
        StepView::RemoveDir { path } => e matches RuntimeError::FilesystemError {
            operation,
            reason: r,
        } && operation@ == "rmdir "@ + path && r@ == reason,
        StepView::Unshare { .. } => e matches RuntimeError::NamespaceError {
            operation,
            reason: r,
        } && operation@ == "unshare"@ && r@ == reason,
        StepView::NoNewPrivileges => e matches RuntimeError::SeccompError(s) && s@
            == "prctl(PR_SET_NO_NEW_PRIVS) failed"@,
        StepView::InstallFilter { .. } => e matches RuntimeError::SeccompError(s) && s@
            == "prctl(PR_SET_SECCOMP) failed: errno="@ + reason,
        StepView::RunIp { operation: o, .. } => e matches RuntimeError::NetworkError {
            operation,
            reason: r,
        } && operation@ == o && r@ == reason,
        StepView::MoveInterface { operation: o, .. } => e matches RuntimeError::NetworkError {
            operation,
            reason: r,
        } && operation@ == o && r@ == reason,
    }
}

fn cgroup_failure(verb: &str, path: &str, reason: &str) -> (s: String)
    ensures
        s@ == verb@ + path@ + ": "@ + reason@,
{
    let mut s = owned(verb);
    s.append(path);
    s.append(": ");
    s.append(reason);
    s
}

impl Step {
    /// The error that a failure of this step amounts to.
    pub fn error(&self, reason: String) -> (e: RuntimeError)
        ensures
            is_failure_of(e, self@, reason@),
    {
        match self {
            Step::CreateCgroup { path } => RuntimeError::CgroupError {
                controller: owned("cgroup"),
                reason: cgroup_failure("mkdir ", path.as_str(), reason.as_str()),
            },
            Step::WriteController { path, controller, .. } => RuntimeError::CgroupError {
                controller: controller.clone(),
                reason: cgroup_failure("write ", path.as_str(), reason.as_str()),
            },
            Step::RemoveCgroup { path } => RuntimeError::CgroupError {
                controller: owned("cgroup"),
                reason: cgroup_failure("rmdir ", path.as_str(), reason.as_str()),
            },
            Step::MakeDir { operation, .. } => RuntimeError::FilesystemError {
                operation: operation.clone(),
                reason,
            },
            Step::Extract { operation, .. } => RuntimeError::FilesystemError {
                operation: operation.clone(),
                reason,
            },
            Step::Mount { operation, .. } => RuntimeError::FilesystemError {
                operation: operation.clone(),
                reason,
            },
            Step::PivotRoot { .. } => RuntimeError::FilesystemError {
                operation: owned("pivot_root"),
                reason,
            },
            Step::ChangeDir { path } => {
                let mut operation = owned("chdir ");
                operation.append(path.as_str());
                RuntimeError::FilesystemError { operation, reason }
            },
            Step::Detach { operation, .. } => RuntimeError::FilesystemError {
                operation: operation.clone(),
                reason,
            },
            Step::RemoveDir { path } => {
                let mut operation = owned("rmdir ");
                operation.append(path.as_str());
                RuntimeError::FilesystemError { operation, reason }
            },
            Step::Unshare { .. } => RuntimeError::NamespaceError {
                operation: owned("unshare"),
                reason,
            },
            Step::NoNewPrivileges => RuntimeError::SeccompError(
                owned("prctl(PR_SET_NO_NEW_PRIVS) failed"),
            ),
            Step::InstallFilter { .. } => {
                let mut s = owned("prctl(PR_SET_SECCOMP) failed: errno=");
                s.append(reason.as_str());
                RuntimeError::SeccompError(s)
            },
            Step::RunIp { operation, .. } => RuntimeError::NetworkError {
                operation: operation.clone(),
                reason,
            },
            Step::MoveInterface { operation, .. } => RuntimeError::NetworkError {
                operation: operation.clone(),
                reason,
            },
        }
    }

    /// Whether a failure of this step can be passed over.
    pub fn tolerates(&self, ran: bool) -> (b: bool)
        ensures
            b == tolerated(self@, ran),
    {
        match self {
            Step::RemoveDir { .. } => true,
            Step::RunIp { must_succeed, .. } => !*must_succeed && ran,
            _ => false,
        }
    }
}

/// How a step went, as the specification sees it: nothing if it succeeded, else
/// whether a command ran and reported failure.
pub type Outcome = Option<bool>;

/// An outcome that ends an execution.
pub open spec fn fatal(step: StepView, outcome: Outcome) -> bool {
    outcome matches Some(ran) && !tolerated(step, ran)
}

/// How many steps of a plan have been done after their outcomes came in one by one.
/// Nothing is done after the first fatal one.
pub open spec fn steps_done(plan: Seq<StepView>, outcomes: Seq<Outcome>) -> int
    decreases outcomes.len(),
{
    if outcomes.len() == 0 {
        0
    } else {
        let n = steps_done(plan, outcomes.drop_last());
        if n == outcomes.len() - 1 && n < plan.len() && !fatal(plan[n], outcomes.last()) {
            n + 1
        } else {
            n
        }
    }
}

/// An execution stops at the first fatal outcome, whatever comes after it.
pub proof fn first_failure_ends_the_plan(
    plan: Seq<StepView>,
    outcomes: Seq<Outcome>,
    first: int,
)
    requires
        0 <= first < outcomes.len(),
        first < plan.len(),
        fatal(plan[first], outcomes[first]),
        forall|k: int| 0 <= k < first ==> !fatal(plan[k], #[trigger] outcomes[k]),
    ensures
        steps_done(plan, outcomes) == first,
    decreases outcomes.len(),
{
    let before = outcomes.drop_last();
    if first < before.len() {
        first_failure_ends_the_plan(plan, before, first);
    } else {
        harmless_outcomes_finish_the_plan(plan, before);
    }
}

/// An execution without fatal outcomes gets as far as its outcomes go.
pub proof fn harmless_outcomes_finish_the_plan(plan: Seq<StepView>, outcomes: Seq<Outcome>)
    requires
        outcomes.len() <= plan.len(),
        forall|k: int| 0 <= k < outcomes.len() ==> !fatal(plan[k], #[trigger] outcomes[k]),
    ensures
        steps_done(plan, outcomes) == outcomes.len(),
    decreases outcomes.len(),
{
    if outcomes.len() > 0 {
        let n = outcomes.len() - 1;
        assert(outcomes[n] == outcomes.last());
        harmless_outcomes_finish_the_plan(plan, outcomes.drop_last());
    }
}

/// The outcome that a report is about.
pub open spec fn outcome_of(report: Result<(), StepFailure>) -> Outcome {
    match report {
        Ok(()) => None,
        Err(f) => Some(f.ran),
    }
}

/// A plan under way.
#[derive(Debug)]
pub struct Execution {
    /// The steps of the plan.
    pub steps: Vec<Step>,
    /// How many have been done.
    pub done: usize,
}

impl Execution {
    /// The position is within the plan.
    pub open spec fn wf(&self) -> bool {
        self.done <= self.steps@.len()
    }

    /// Start on a plan.
    pub fn new(steps: Vec<Step>) -> (x: Self)
        ensures
            x.wf(),
            x.steps == steps,
            x.done == 0,
    {
        Execution { steps, done: 0 }
    }

    /// The step to do next, if the plan is not finished.
    pub fn current(&self) -> (r: Option<&Step>)
        requires
            self.wf(),
        ensures
            match r {
                Some(step) => self.done < self.steps@.len() && *step
                    == self.steps@[self.done as int],
                None => self.done == self.steps@.len(),
            },
    {
        if self.done < self.steps.len() {
            Some(&self.steps[self.done])
        } else {
            None
        }
    }

    /// Take in how the current step went. The first failure that cannot be passed
    /// over is returned and ends the execution where it is; otherwise the next
    /// step is up.
    pub fn report(&mut self, outcome: Result<(), StepFailure>) -> (r: Result<(), RuntimeError>)
        requires
            old(self).wf(),
            old(self).done < old(self).steps@.len(),
        ensures
            final(self).wf(),
            final(self).steps == old(self).steps,
            ({
                let plan = step_views(old(self).steps@);
                let step = plan[old(self).done as int];
                &&& match r {
                    Ok(()) => !fatal(step, outcome_of(outcome)),
                    Err(e) => fatal(step, outcome_of(outcome)) && is_failure_of(
                        e,
                        step,
                        outcome->Err_0.reason@,
                    ),
                }
                &&& final(self).done == (if r is Ok {
                    old(self).done + 1
                } else {
                    old(self).done as int
                })
                &&& forall|so_far: Seq<Outcome>|
                    so_far.len() == old(self).done && steps_done(plan, so_far) == old(self).done
                        ==> #[trigger] steps_done(plan, so_far.push(outcome_of(outcome)))
                        == final(self).done
            }),
    {
        let at: usize = self.done;
        let total: usize = self.steps.len();
        assert(at < total);
        proof {
            let out = outcome_of(outcome);
            assert forall|so_far: Seq<Outcome>| #[trigger] so_far.push(out).drop_last() == so_far by {
                assert(so_far.push(out).drop_last() =~= so_far);
            }
        }
        match outcome {
            Ok(()) => {},
            Err(f) => {
                if !self.steps[at].tolerates(f.ran) {
                    return Err(self.steps[at].error(f.reason));
                }
            },
        }
        self.done = at + 1;
        Ok(())
    }

    /// Whether every step has been done.
    pub fn is_finished(&self) -> (b: bool)
        requires
            self.wf(),
        ensures
            b == (self.done == self.steps@.len()),
    {
        self.done == self.steps.len()
    }
}

/// A failure can be passed over only where it does not matter: a directory that could not
/// be removed, or an optional network command that ran and reported failure.
pub proof fn other_failures_are_fatal(step: StepView, ran: bool)
    ensures
        !fatal(step, None),
        step is RemoveDir ==> !fatal(step, Some(ran)),
        step is RunIp && !step->must_succeed && ran ==> !fatal(step, Some(ran)),
        !(step is RemoveDir) && !(step is RunIp && !step->must_succeed && ran) ==> fatal(
            step,
            Some(ran),
        ),
{
}

/// The error of a failed step is of the kind of its subsystem and holds what went wrong.
pub proof fn errors_tell_what_failed(e: RuntimeError, step: StepView, reason: Seq<char>)
    requires
        is_failure_of(e, step, reason),
    ensures
        step is CreateCgroup || step is WriteController || step is RemoveCgroup ==> e
            is CgroupError && reason.is_suffix_of(e->CgroupError_reason@),
        step matches StepView::WriteController { controller, .. } ==> e->controller@ == controller,
        step is MakeDir || step is Extract || step is Mount || step is PivotRoot || step
            is ChangeDir || step is Detach || step is RemoveDir ==> e is FilesystemError
            && e->FilesystemError_reason@ == reason,
        step matches StepView::Mount { operation, .. } ==> e->FilesystemError_operation@
            == operation,
        step matches StepView::MakeDir { operation, .. } ==> e->FilesystemError_operation@
            == operation,
        step is Unshare ==> e is NamespaceError && e->NamespaceError_reason@ == reason,
        step is NoNewPrivileges || step is InstallFilter ==> e is SeccompError,
        step is InstallFilter ==> reason.is_suffix_of(e->SeccompError_0@),
        step is RunIp || step is MoveInterface ==> e is NetworkError && e->NetworkError_reason@
            == reason,
        step matches StepView::RunIp { operation, .. } ==> e->NetworkError_operation@ == operation,
        step matches StepView::MoveInterface { operation, .. } ==> e->NetworkError_operation@
            == operation,
{
    match e {
        RuntimeError::CgroupError { controller, reason: r } => {
            let n = r@.len() - reason.len();
            assert(r@.subrange(n, r@.len() as int) =~= reason);
        },
        RuntimeError::SeccompError(s) => {
            if step is InstallFilter {
                let n = s@.len() - reason.len();
                assert(s@.subrange(n, s@.len() as int) =~= reason);
            }
        },
        _ => {},
    }
}

} // verus!
