//! seccomp-BPF syscall filtering for container processes.
//!
//! [`compile_filter`] builds a classic BPF program that inspects the number of
//! every syscall. The policy is a deny-list: the listed syscalls are refused,
//! everything else is allowed.

use vstd::prelude::*;

use crate::runtime::steps::{step_views, Step, StepView};
use crate::text::owned;

verus! {

/// A syscall to block, identified by its Linux syscall number.
#[derive(Debug)]
pub struct BlockedSyscall {
    /// Human-readable name (e.g., "ptrace", "mount").
    pub name: String,
    /// Architecture-specific syscall number (x86_64).
    pub number: u32,
}

/// The numbers of a list of syscalls.
pub open spec fn numbers(blocked: Seq<BlockedSyscall>) -> Seq<u32> {
    Seq::new(blocked.len(), |i: int| blocked[i].number)
}

/// The names and numbers of a list of syscalls.
pub open spec fn named_numbers(blocked: Seq<BlockedSyscall>) -> Seq<(Seq<char>, u32)> {
    Seq::new(blocked.len(), |i: int| (blocked[i].name@, blocked[i].number))
}

/// The syscalls blocked by default.
pub open spec fn default_deny_list() -> Seq<(Seq<char>, u32)> {
    seq![
        ("ptrace"@, 101u32),
        ("mount"@, 165),
        ("reboot"@, 169),
        ("kexec_load"@, 246),
        ("init_module"@, 175),
        ("finit_module"@, 313),
        ("delete_module"@, 176),
        ("acct"@, 163),
    ]
}

/// Default set of blocked syscalls: process inspection, mounting, rebooting,
/// loading kernels and modules, and process accounting.
pub fn default_blocked_syscalls() -> (r: Vec<BlockedSyscall>)
    ensures
        named_numbers(r@) == default_deny_list(),
{
    let r: Vec<BlockedSyscall> = vec![
        BlockedSyscall { name: owned("ptrace"), number: 101 },
        BlockedSyscall { name: owned("mount"), number: 165 },
        BlockedSyscall { name: owned("reboot"), number: 169 },
        BlockedSyscall { name: owned("kexec_load"), number: 246 },
        BlockedSyscall { name: owned("init_module"), number: 175 },
        BlockedSyscall { name: owned("finit_module"), number: 313 },
        BlockedSyscall { name: owned("delete_module"), number: 176 },
        BlockedSyscall { name: owned("acct"), number: 163 },
    ];
    assert(named_numbers(r@) =~= default_deny_list());
    r
}

/// Configuration for the seccomp filter.
#[derive(Debug)]
pub struct SeccompConfig {
    /// Syscalls to block. The default deny-list applies if empty.
    pub blocked_syscalls: Vec<BlockedSyscall>,
    /// Whether to kill the process on a blocked syscall (vs. returning EPERM).
    pub kill_on_violation: bool,
}

impl Default for SeccompConfig {
    fn default() -> (c: Self)
        ensures
            named_numbers(c.blocked_syscalls@) == default_deny_list(),
            !c.kill_on_violation,
    {
        SeccompConfig { blocked_syscalls: default_blocked_syscalls(), kill_on_violation: false }
    }
}

/// A compiled BPF instruction, as the kernel's `struct sock_filter`.
#[derive(Debug, Clone, Copy, PartialEq, Eq, Structural)]
pub struct BpfInstruction {
    /// BPF opcode.
    pub code: u16,
    /// Jump-true offset.
    pub jt: u8,
    /// Jump-false offset.
    pub jf: u8,
    /// Immediate value.
    pub k: u32,
}

/// Instruction class: load.
pub const BPF_LD: u16 = 0x00;

/// Size: a word of four bytes.
pub const BPF_W: u16 = 0x00;

/// Addressing mode: an absolute offset.
pub const BPF_ABS: u16 = 0x20;

/// Instruction class: jump.
pub const BPF_JMP: u16 = 0x05;

/// Jump always.
pub const BPF_JA: u16 = 0x00;

/// Jump if equal.
pub const BPF_JEQ: u16 = 0x10;

/// Instruction class: return.
pub const BPF_RET: u16 = 0x06;

/// Operand: the immediate value.
pub const BPF_K: u16 = 0x00;

/// Action: the syscall is carried out.
pub const SECCOMP_RET_ALLOW: u32 = 0x7fff_0000;

/// Action: the process is killed.
pub const SECCOMP_RET_KILL_PROCESS: u32 = 0x8000_0000;

/// Action: the syscall fails with the error in the lower half.
pub const SECCOMP_RET_ERRNO: u32 = 0x0005_0000;

/// The error of an operation that is not permitted.
pub const EPERM: u32 = 1;

/// The instruction that loads the syscall number.
pub open spec fn load_number() -> BpfInstruction {
    BpfInstruction { code: 0x20, jt: 0, jf: 0, k: 0 }
}

/// The instruction that compares the accumulator with `k` and jumps.
pub open spec fn jump_equal(k: u32, jt: u8, jf: u8) -> BpfInstruction {
    BpfInstruction { code: 0x15, jt, jf, k }
}

/// The instruction that skips `k` instructions.
pub open spec fn jump_always(k: u32) -> BpfInstruction {
    BpfInstruction { code: 0x05, jt: 0, jf: 0, k }
}

/// The instruction that ends the program with a verdict.
pub open spec fn verdict(k: u32) -> BpfInstruction {
    BpfInstruction { code: 0x06, jt: 0, jf: 0, k }
}

/// What the kernel makes of a program for a syscall number: the verdict that it
/// reaches from an instruction on, with the given accumulator. `None` if it runs
/// off the program or into an instruction that is not one of the above.
pub open spec fn run_from(program: Seq<BpfInstruction>, pc: int, acc: u32, nr: u32) -> Option<u32>
    decreases if pc < program.len() { program.len() - pc } else { 0 },
{
    if pc < 0 || pc >= program.len() {
        None
    } else {
        let i = program[pc];
        if i.code == 0x20 && i.k == 0 {
            run_from(program, pc + 1, nr, nr)
        } else if i.code == 0x15 {
            run_from(program, pc + 1 + (if acc == i.k { i.jt as int } else { i.jf as int }), acc, nr)
        } else if i.code == 0x05 {
            run_from(program, pc + 1 + i.k, acc, nr)
        } else if i.code == 0x06 {
            Some(i.k)
        } else {
            None
        }
    }
}

/// The verdict of a program on a syscall number.
pub open spec fn run(program: Seq<BpfInstruction>, nr: u32) -> Option<u32> {
    run_from(program, 0, 0, nr)
}

/// The verdict on a blocked syscall.
pub open spec fn deny_verdict(kill: bool) -> u32 {
    if kill {
        0x8000_0000
    } else {
        0x0005_0001
    }
}

/// The comparisons whose distance to the deny verdict does not fit the eight bits
/// of a conditional jump. They take a second instruction that jumps all the way.
pub open spec fn far_jumps(n: int) -> int {
    if n > 255 {
        n - 255
    } else {
        0
    }
}

/// The filter program for a list of syscall numbers: load the syscall number,
/// compare it with each of the list and jump to the deny verdict at the end if it
/// matches; if none does, allow.
pub open spec fn filter_program(blocked: Seq<u32>, deny: u32) -> Seq<BpfInstruction> {
    let n = blocked.len() as int;
    let far = far_jumps(n);
    let last = n + far + 2;
    Seq::new(
        (last + 1) as nat,
        |p: int|
            if p == 0 {
                load_number()
            } else if p <= 2 * far {
                if p % 2 == 1 {
                    jump_equal(blocked[(p - 1) / 2], 0, 1)
                } else {
                    jump_always((last - p - 1) as u32)
                }
            } else if p <= n + far {
                jump_equal(blocked[p - 1 - far], (last - p - 1) as u8, 0)
            } else if p == n + far + 1 {
                verdict(0x7fff_0000)
            } else {
                verdict(deny)
            },
    )
}

/// The numbers that a configuration blocks.
pub open spec fn effective(config: SeccompConfig) -> Seq<u32> {
    if config.blocked_syscalls@.len() == 0 {
        default_deny_list().map_values(|e: (Seq<char>, u32)| e.1)
    } else {
        numbers(config.blocked_syscalls@)
    }
}

/// From the comparison with the `i`-th number on, the program denies exactly the
/// numbers from there on in the list.
proof fn runs_from_comparison(blocked: Seq<u32>, deny: u32, i: int, nr: u32)
    requires
        0 <= i <= blocked.len(),
        blocked.len() <= 0x7fff_0000,
    ensures
        ({
            let far = far_jumps(blocked.len() as int);
            let pc = 1 + i + (if i < far { i } else { far });
            run_from(filter_program(blocked, deny), pc, nr, nr) == Some(
                if blocked.skip(i).contains(nr) {
                    deny
                } else {
                    0x7fff_0000u32
                },
            )
        }),
    decreases blocked.len() - i,
{
    let program = filter_program(blocked, deny);
    let n = blocked.len() as int;
    let far = far_jumps(n);
    let last = n + far + 2;
    let pc = 1 + i + (if i < far { i } else { far });
    assert(program.len() == last + 1);
    assert(program[last] == verdict(deny));
    assert(run_from(program, last, nr, nr) == Some(deny));
    if i == n {
        assert(program[pc] == verdict(0x7fff_0000));
        assert(blocked.skip(i) =~= Seq::empty());
    } else {
        runs_from_comparison(blocked, deny, i + 1, nr);
        let rest = blocked.skip(i);
        assert(rest[0] == blocked[i]);
        let tail = blocked.skip(i + 1);
        assert(rest.contains(nr) <==> blocked[i] == nr || tail.contains(nr)) by {
            if rest.contains(nr) && blocked[i] != nr {
                let j = choose|j: int| 0 <= j < rest.len() && rest[j] == nr;
                assert(tail[j - 1] == nr);
            }
            if tail.contains(nr) {
                let j = choose|j: int| 0 <= j < tail.len() && tail[j] == nr;
                assert(rest[j + 1] == nr);
            }
        }
        if i < far {
            assert(pc == 2 * i + 1);
            assert(program[pc] == jump_equal(blocked[i], 0, 1));
            assert(program[pc + 1] == jump_always((last - pc - 2) as u32));
            if blocked[i] == nr {
                assert(run_from(program, pc + 1, nr, nr) == run_from(program, last, nr, nr));
            }
        } else {
            assert(program[pc] == jump_equal(blocked[i], (last - pc - 1) as u8, 0));
            assert(last - pc - 1 <= 255);
        }
    }
}

/// The filter denies exactly the blocked syscalls and allows every other.
pub proof fn filter_denies_exactly_the_blocked(blocked: Seq<u32>, deny: u32, nr: u32)
    requires
        blocked.len() <= 0x7fff_0000,
    ensures
        run(filter_program(blocked, deny), nr) == Some(
            if blocked.contains(nr) {
                deny
            } else {
                0x7fff_0000u32
            },
        ),
{
    let program = filter_program(blocked, deny);
    assert(program[0] == load_number());
    runs_from_comparison(blocked, deny, 0, nr);
    assert(blocked.skip(0) =~= blocked);
}

/// Compile a seccomp BPF filter program from the given configuration.
pub fn compile_filter(config: &SeccompConfig) -> (program: Vec<BpfInstruction>)
    requires
        config.blocked_syscalls@.len() <= 0x7fff_0000,
    ensures
        program@ == filter_program(effective(*config), deny_verdict(config.kill_on_violation)),
        forall|nr: u32| #[trigger]
            run(program@, nr) == Some(
                if effective(*config).contains(nr) {
                    deny_verdict(config.kill_on_violation)
                } else {
                    SECCOMP_RET_ALLOW
                },
            ),
{
    let fallback = default_blocked_syscalls();
    let blocked: &Vec<BlockedSyscall> = if config.blocked_syscalls.len() == 0 {
        &fallback
    } else {
        &config.blocked_syscalls
    };
    let ghost list = numbers(blocked@);
    proof {
        if config.blocked_syscalls@.len() == 0 {
            assert forall|i: int| 0 <= i < list.len() implies list[i] == effective(*config)[i] by {
                assert(named_numbers(blocked@)[i].1 == list[i]);
            }
            assert(named_numbers(blocked@).len() == list.len());
        }
        assert(list =~= effective(*config));
        assert(0u16 | 0u16 | 0x20u16 == 0x20u16) by (bit_vector);
        assert(0x05u16 | 0x10u16 | 0u16 == 0x15u16) by (bit_vector);
        assert(0x05u16 | 0u16 == 0x05u16) by (bit_vector);
        assert(0x06u16 | 0u16 == 0x06u16) by (bit_vector);
        assert(0x0005_0000u32 | 1u32 == 0x0005_0001u32) by (bit_vector);
    }
    let deny: u32 = if config.kill_on_violation {
        SECCOMP_RET_KILL_PROCESS
    } else {
        SECCOMP_RET_ERRNO | EPERM
    };
    let n: usize = blocked.len();
    let far: usize = if n > 255 { n - 255 } else { 0 };
    let ghost last = n + far + 2;
    let ghost want = filter_program(list, deny);
    let mut program: Vec<BpfInstruction> = Vec::new();
    program.push(BpfInstruction { code: BPF_LD | BPF_W | BPF_ABS, jt: 0, jf: 0, k: 0 });
    let mut i: usize = 0;
    while i < n
        invariant
            i <= n,
            n == blocked.len(),
            n <= 0x7fff_0000,
            far == far_jumps(n as int),
            last == n + far + 2,
            list == numbers(blocked@),
            want == filter_program(list, deny),
            program.len() == 1 + i + (if i < far { i } else { far }),
            forall|p: int| 0 <= p < program.len() ==> program[p] == want[p],
            0x05u16 | 0x10u16 | 0u16 == 0x15u16,
            0x05u16 | 0u16 == 0x05u16,
        decreases n - i,
    {
        let number: u32 = blocked[i].number;
        if i < far {
            // After the jump there remain the other far comparisons, two
            // instructions each, the near ones and the allow verdict.
            let distance: usize = 2 * (far - i - 1) + (n - far) + 1;
            program.push(BpfInstruction { code: BPF_JMP | BPF_JEQ | BPF_K, jt: 0, jf: 1, k: number });
            program.push(BpfInstruction { code: BPF_JMP | BPF_JA, jt: 0, jf: 0, k: distance as u32 });
            assert(want[2 * i + 1] == jump_equal(list[i as int], 0, 1));
            assert(want[2 * i + 2] == jump_always((last - (2 * i + 2) - 1) as u32));
        } else {
            let remaining: usize = n - i;
            program.push(
                BpfInstruction {
                    code: BPF_JMP | BPF_JEQ | BPF_K,
                    jt: remaining as u8,
                    jf: 0,
                    k: number,
                },
            );
        }
        i += 1;
    }
    program.push(BpfInstruction { code: BPF_RET | BPF_K, jt: 0, jf: 0, k: SECCOMP_RET_ALLOW });
    program.push(BpfInstruction { code: BPF_RET | BPF_K, jt: 0, jf: 0, k: deny });
    assert(program@ =~= want);
    proof {
        assert forall|nr: u32| #[trigger] run(program@, nr) == Some(
            if effective(*config).contains(nr) {
                deny_verdict(config.kill_on_violation)
            } else {
                SECCOMP_RET_ALLOW
            },
        ) by {
            filter_denies_exactly_the_blocked(list, deny, nr);
        }
    }
    program
}

/// The steps that install a filter: forbid gaining privileges, then hand the
/// program to the kernel.
pub open spec fn filter_steps(config: SeccompConfig) -> Seq<StepView> {
    seq![
        StepView::NoNewPrivileges,
        StepView::InstallFilter {
            program: filter_program(effective(config), deny_verdict(config.kill_on_violation)),
        },
    ]
}

/// Plan the installation of the filter on the current process.
pub fn install_filter(config: &SeccompConfig) -> (steps: Vec<Step>)
    requires
        config.blocked_syscalls@.len() <= 0x7fff_0000,
    ensures
        step_views(steps@) == filter_steps(*config),
{
    let program = compile_filter(config);
    let mut steps: Vec<Step> = Vec::new();
    steps.push(Step::NoNewPrivileges);
    steps.push(Step::InstallFilter { program });
    assert(step_views(steps@) =~= filter_steps(*config));
    steps
}

/// What the installed filter does to a syscall: one that the configuration lists, or one
/// of the default list where it lists none, fails with EPERM or kills the process, as
/// configured; every other is allowed.
pub proof fn installed_filter_decides_by_number(config: SeccompConfig, nr: u32)
    requires
        config.blocked_syscalls@.len() <= 0x7fff_0000,
    ensures
        filter_steps(config).len() == 2,
        filter_steps(config)[0] is NoNewPrivileges,
        filter_steps(config)[1] is InstallFilter,
        ({
            let decision = run(filter_steps(config)[1]->program, nr);
            let listed = exists|i: int|
                0 <= i < config.blocked_syscalls@.len() && (
                #[trigger] config.blocked_syscalls@[i]).number == nr;
            let standard = nr == 101 || nr == 163 || nr == 165 || nr == 169 || nr == 175 || nr
                == 176 || nr == 246 || nr == 313;
            let denied = if config.blocked_syscalls@.len() == 0 {
                standard
            } else {
                listed
            };
            &&& !denied ==> decision == Some(0x7fff_0000u32)
            &&& denied && config.kill_on_violation ==> decision == Some(0x8000_0000u32)
            &&& denied && !config.kill_on_violation ==> decision == Some(0x0005_0001u32)
        }),
{
    let list = effective(config);
    filter_denies_exactly_the_blocked(list, deny_verdict(config.kill_on_violation), nr);
    if config.blocked_syscalls@.len() == 0 {
        assert(list =~= seq![101u32, 165, 169, 246, 175, 313, 176, 163]);
        assert(list[0] == 101 && list[1] == 165 && list[2] == 169 && list[3] == 246 && list[4]
            == 175 && list[5] == 313 && list[6] == 176 && list[7] == 163);
        assert(list.contains(nr) <==> nr == 101 || nr == 163 || nr == 165 || nr == 169 || nr == 175
            || nr == 176 || nr == 246 || nr == 313) by {
            if list.contains(nr) {
                let k = choose|k: int| 0 <= k < list.len() && list[k] == nr;
                assert(list.len() == 8);
            }
        }
    } else {
        if list.contains(nr) {
            let k = choose|k: int| 0 <= k < list.len() && list[k] == nr;
            assert(config.blocked_syscalls@[k].number == nr);
        }
        if exists|i: int|
            0 <= i < config.blocked_syscalls@.len() && (
            #[trigger] config.blocked_syscalls@[i]).number == nr {
            let i = choose|i: int|
                0 <= i < config.blocked_syscalls@.len() && (
                #[trigger] config.blocked_syscalls@[i]).number == nr;
            assert(list[i] == nr);
        }
    }
}

/// By default the syscalls are blocked that inspect processes, mount, reboot, load kernels
/// or modules and account for processes, each under its own number.
pub proof fn dangerous_syscalls_are_blocked_by_default()
    ensures
        default_deny_list().len() == 8,
        default_deny_list().contains(("ptrace"@, 101u32)),
        default_deny_list().contains(("mount"@, 165u32)),
        default_deny_list().contains(("reboot"@, 169u32)),
        default_deny_list().contains(("kexec_load"@, 246u32)),
        default_deny_list().contains(("init_module"@, 175u32)),
        default_deny_list().contains(("finit_module"@, 313u32)),
        default_deny_list().contains(("delete_module"@, 176u32)),
        default_deny_list().contains(("acct"@, 163u32)),
{
    let list = default_deny_list();
    assert(list[0] == ("ptrace"@, 101u32));
    assert(list[1] == ("mount"@, 165u32));
    assert(list[2] == ("reboot"@, 169u32));
    assert(list[3] == ("kexec_load"@, 246u32));
    assert(list[4] == ("init_module"@, 175u32));
    assert(list[5] == ("finit_module"@, 313u32));
    assert(list[6] == ("delete_module"@, 176u32));
    assert(list[7] == ("acct"@, 163u32));
}

} // verus!
