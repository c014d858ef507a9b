//! Tests of the container runtime.

use leviathan::model::error::LeviathanError;
use leviathan::model::resources::ResourceSpec;
use leviathan::runtime::cgroup::{CgroupLimits, CgroupManager};
use leviathan::runtime::container::{ContainerRuntime, ContainerSpec, ContainerState};
use leviathan::runtime::error::RuntimeError;
use leviathan::runtime::filesystem::{
    mount_essential_filesystems, pivot_root, prepare_rootfs, FilesystemConfig,
};
use leviathan::runtime::namespace::{create_namespaces, NamespaceConfig};
use leviathan::runtime::network::{setup_container_network, Ipv4, NetworkConfig};
use leviathan::runtime::paths::{join, path_below};
use leviathan::runtime::seccomp::{
    compile_filter, default_blocked_syscalls, install_filter, BlockedSyscall, BpfInstruction,
    SeccompConfig, BPF_ABS, BPF_K, BPF_LD, BPF_RET, BPF_W,
};
use leviathan::runtime::steps::{Execution, Step, StepFailure};

#[test]
fn cpu_max_value_one_core() {
    let limits = CgroupLimits { cpu_millicores: 1000, memory_bytes: 0, pids_max: 0 };
    assert_eq!(limits.cpu_max_value(), "100000 100000");
}

#[test]
fn cpu_max_value_half_core() {
    let limits = CgroupLimits { cpu_millicores: 500, memory_bytes: 0, pids_max: 0 };
    assert_eq!(limits.cpu_max_value(), "50000 100000");
}

#[test]
fn cpu_max_value_no_limit() {
    let limits = CgroupLimits { cpu_millicores: 0, memory_bytes: 0, pids_max: 0 };
    assert_eq!(limits.cpu_max_value(), "max 100000");
    assert_eq!(limits.memory_max_value(), "max");
    assert_eq!(limits.pids_max_value(), "max");
}

#[test]
fn memory_max_512mib() {
    let limits = CgroupLimits::from_resource_spec(&ResourceSpec::new(1000, 512));
    assert_eq!(limits.memory_max_value(), "536870912");
}

#[test]
fn pids_max_value() {
    let limits = CgroupLimits { cpu_millicores: 0, memory_bytes: 0, pids_max: 100 };
    assert_eq!(limits.pids_max_value(), "100");
}

#[test]
fn from_resource_spec() {
    let spec = ResourceSpec::new(2000, 1024);
    let limits = CgroupLimits::from_resource_spec(&spec);
    assert_eq!(limits.cpu_millicores, 2000);
    assert_eq!(limits.memory_bytes, 1024 * 1_048_576);
}

#[test]
fn cgroup_manager_path() {
    let limits = CgroupLimits::from_resource_spec(&ResourceSpec::new(1000, 512));
    let mgr = CgroupManager::new("test-container", limits);
    assert!(mgr.path().contains("test-container"));
    assert_eq!(mgr.path(), "/sys/fs/cgroup/leviathan/test-container");
    assert_eq!(mgr.name(), "test-container");
}

#[test]
fn cgroup_plan() {
    let limits = CgroupLimits::from_resource_spec(&ResourceSpec::new(1500, 512));
    let mgr = CgroupManager::new("c", limits);
    let steps = mgr.create();
    assert_eq!(steps.len(), 4);
    match &steps[1] {
        Step::WriteController { path, controller, value } => {
            assert_eq!(path, "/sys/fs/cgroup/leviathan/c/cpu.max");
            assert_eq!(controller, "cpu.max");
            assert_eq!(value, "150000 100000");
        }
        other => panic!("unexpected {:?}", other),
    }
    match mgr.assign_pid(4711) {
        Step::WriteController { path, value, .. } => {
            assert_eq!(path, "/sys/fs/cgroup/leviathan/c/cgroup.procs");
            assert_eq!(value, "4711");
        }
        other => panic!("unexpected {:?}", other),
    }
    assert_eq!(
        mgr.destroy().error("busy".into()).to_string(),
        "cgroup error: cgroup: rmdir /sys/fs/cgroup/leviathan/c: busy"
    );
}

#[test]
fn default_config_mounts_all() {
    let cfg = FilesystemConfig::default();
    assert!(cfg.mount_proc);
    assert!(cfg.mount_sys);
    assert!(cfg.mount_dev);
}

#[test]
fn prepare_rootfs_creates_directories() {
    let config = FilesystemConfig { rootfs: "/tmp/x/rootfs".into(), ..FilesystemConfig::default() };
    let made: Vec<String> = prepare_rootfs(&config)
        .into_iter()
        .map(|step| match step {
            Step::MakeDir { path, operation } => {
                assert_eq!(operation, format!("mkdir {path}"));
                path
            }
            other => panic!("unexpected {:?}", other),
        })
        .collect();
    for dir in ["proc", "sys", "dev", "etc", "tmp", "bin", "usr"] {
        assert!(made.contains(&format!("/tmp/x/rootfs/{dir}")));
    }
    assert_eq!(made.len(), 7);
}

#[test]
fn mounts_follow_the_configuration() {
    let config = FilesystemConfig { rootfs: "/r".into(), mount_sys: false, ..FilesystemConfig::default() };
    let steps = mount_essential_filesystems(&config);
    assert_eq!(steps.len(), 2);
    match (&steps[0], &steps[1]) {
        (
            Step::Mount { target, fstype, flags, .. },
            Step::Mount { source, target: dev, fstype: None, flags: bind, .. },
        ) => {
            assert_eq!(target, "/r/proc");
            assert_eq!(fstype.as_deref(), Some("proc"));
            assert!(flags.no_suid && flags.no_exec && flags.no_dev && !flags.read_only);
            assert_eq!((source.as_str(), dev.as_str()), ("/dev", "/r/dev"));
            assert!(bind.bind && bind.recursive);
        }
        other => panic!("unexpected {:?}", other),
    }
    let all = mount_essential_filesystems(&FilesystemConfig::default());
    assert!(matches!(&all[1], Step::Mount { flags, .. } if flags.read_only));
}

#[test]
fn layers_are_extracted_in_order() {
    let config = FilesystemConfig {
        rootfs: "/r".into(),
        layers: vec!["/images/base.tar".into(), "/images/app.tar".into()],
        ..FilesystemConfig::default()
    };
    let steps = prepare_rootfs(&config);
    assert_eq!(steps.len(), 9);
    for (step, layer) in steps[7..].iter().zip(&config.layers) {
        match step {
            Step::Extract { archive, target, operation } => {
                assert_eq!((archive, target.as_str()), (layer, "/r"));
                assert_eq!(operation, &format!("extract {layer}"));
            }
            other => panic!("unexpected {:?}", other),
        }
    }
    assert!(matches!(
        steps[7].error("bad archive".into()),
        RuntimeError::FilesystemError { operation, reason }
            if operation == "extract /images/base.tar" && reason == "bad archive"
    ));
}

#[test]
fn bind_mounts_stay_below_the_root() {
    let config = FilesystemConfig {
        rootfs: "/r".into(),
        bind_mounts: vec![("/srv/data".into(), "/data".into()), ("/etc/hosts.d".into(), "etc/h".into())],
        mount_proc: false,
        mount_sys: false,
        mount_dev: false,
        ..FilesystemConfig::default()
    };
    let steps = mount_essential_filesystems(&config);
    assert_eq!(steps.len(), 4);
    for (pair, (host, inside)) in
        steps.chunks(2).zip([("/srv/data", "/r/data"), ("/etc/hosts.d", "/r/etc/h")])
    {
        match (&pair[0], &pair[1]) {
            (
                Step::MakeDir { path, .. },
                Step::Mount { source, target, fstype: None, flags, operation },
            ) => {
                assert_eq!((path.as_str(), target.as_str(), source.as_str()), (inside, inside, host));
                assert!(flags.bind && flags.recursive && !flags.read_only);
                assert_eq!(operation, &format!("bind mount {inside}"));
            }
            other => panic!("unexpected {:?}", other),
        }
    }
    assert_eq!(path_below("/r", "//x/y"), "/r/x/y");
    assert_eq!(path_below("/r/", "x"), "/r/x");
}

#[test]
fn pivot_root_plan() {
    let steps = pivot_root("/r");
    assert_eq!(steps.len(), 6);
    assert!(matches!(&steps[2], Step::PivotRoot { new_root, put_old } if new_root == "/r" && put_old == "/r/old_root"));
    assert!(matches!(&steps[5], Step::RemoveDir { path } if path == "/old_root"));
    assert_eq!(
        steps[3].error("denied".into()).to_string(),
        RuntimeError::FilesystemError { operation: "chdir /".into(), reason: "denied".into() }.to_string()
    );
}

#[test]
fn default_config_is_full_isolation() {
    let cfg = NamespaceConfig::default();
    assert!(cfg.pid);
    assert!(cfg.net);
    assert!(cfg.uts);
    assert!(cfg.mount);
    assert!(cfg.ipc);
}

#[test]
fn none_config_has_no_namespaces() {
    let cfg = NamespaceConfig::none();
    assert!(!cfg.pid);
    assert!(!cfg.net);
}

#[test]
fn create_namespaces_with_none_succeeds() {
    let cfg = NamespaceConfig::none();
    let run = Execution::new(create_namespaces(&cfg));
    assert!(run.current().is_none());
    assert!(run.is_finished(), "no-op should succeed");
    let full = create_namespaces(&NamespaceConfig::full_isolation());
    assert!(matches!(full[..], [Step::Unshare { .. }]));
}

#[test]
fn default_network_config() {
    let cfg = NetworkConfig::default();
    assert_eq!(cfg.container_ip, Ipv4 { a: 10, b: 0, c: 0, d: 2 });
    assert_eq!(cfg.prefix_len, 24);
}

#[test]
fn for_container_generates_unique_veth() {
    let cfg1 = NetworkConfig::for_container("abc12345xyz", 1);
    let cfg2 = NetworkConfig::for_container("def67890uvw", 2);
    assert_ne!(cfg1.host_veth, cfg2.host_veth);
    assert_ne!(cfg1.container_ip, cfg2.container_ip);
    assert_eq!(cfg1.host_veth, "veth-abc12345");
}

#[test]
fn veth_name_length_under_limit() {
    let cfg = NetworkConfig::for_container("a-very-long-container-id-that-exceeds-limits", 1);
    assert!(cfg.host_veth.len() <= 15);
    assert_eq!(NetworkConfig::for_container("ab", 1).host_veth, "veth-ab");
}

#[test]
fn network_plan() {
    let steps = setup_container_network(&NetworkConfig::for_container("abc12345xyz", 7));
    let commands: Vec<String> = steps
        .iter()
        .map(|s| match s {
            Step::RunIp { args, in_container: false, .. } => args.join(" "),
            Step::RunIp { args, in_container: true, .. } => format!("in: {}", args.join(" ")),
            Step::MoveInterface { interface, .. } => format!("move {}", interface),
            other => panic!("unexpected {:?}", other),
        })
        .collect();
    assert_eq!(
        commands,
        vec![
            "link add veth-abc12345 type veth peer name eth0",
            "move eth0",
            "in: addr add 10.0.7.2/24 dev eth0",
            "link set veth-abc12345 up",
            "in: link set eth0 up",
            "link set veth-abc12345 master lev-br0",
        ]
    );
    let plain = NetworkConfig { bridge: None, ..NetworkConfig::default() };
    assert_eq!(setup_container_network(&plain).len(), 5);
}

#[test]
fn a_failed_move_into_the_namespace_ends_the_setup() {
    let mut run = Execution::new(setup_container_network(&NetworkConfig::default()));
    assert!(run.report(Ok(())).is_ok());
    let missing = StepFailure { ran: true, reason: "Cannot find device".into() };
    let e = run.report(Err(missing)).unwrap_err();
    assert_eq!(e.to_string(), "network error: netns_move: Cannot find device");
    assert_eq!(run.done, 1);
}

#[test]
fn a_missing_bridge_is_tolerated() {
    let mut run = Execution::new(setup_container_network(&NetworkConfig::default()));
    for _ in 0..5 {
        assert!(run.report(Ok(())).is_ok());
    }
    let missing = StepFailure { ran: true, reason: "Cannot find device".into() };
    assert!(run.report(Err(missing)).is_ok());
    assert!(run.is_finished());

    let mut run = Execution::new(setup_container_network(&NetworkConfig::default()));
    let denied = StepFailure { ran: true, reason: "Operation not permitted".into() };
    let e = run.report(Err(denied)).unwrap_err();
    assert_eq!(
        LeviathanError::from(e).to_string(),
        "runtime error: network error: veth_create: Operation not permitted"
    );
    assert_eq!(run.done, 0);
}

#[test]
fn default_blocked_syscalls_non_empty() {
    let blocked = default_blocked_syscalls();
    assert!(!blocked.is_empty());
    assert!(blocked.iter().any(|s| s.name == "ptrace"));
    assert!(blocked.iter().any(|s| s.name == "mount"));
    assert!(blocked.iter().any(|s| s.name == "reboot"));
}

#[test]
fn compile_filter_produces_valid_program() {
    let config = SeccompConfig::default();
    let program = compile_filter(&config);
    let expected_len = 1 + config.blocked_syscalls.len() + 2;
    assert_eq!(program.len(), expected_len);
    assert_eq!(program[0].code, BPF_LD | BPF_W | BPF_ABS);
    let last = program.last().unwrap();
    assert_eq!(last.code, BPF_RET | BPF_K);
}

#[test]
fn kill_on_violation_changes_action() {
    let config_eperm = SeccompConfig { kill_on_violation: false, ..SeccompConfig::default() };
    let config_kill = SeccompConfig { kill_on_violation: true, ..SeccompConfig::default() };
    let prog_eperm = compile_filter(&config_eperm);
    let prog_kill = compile_filter(&config_kill);
    assert_ne!(prog_eperm.last().unwrap().k, prog_kill.last().unwrap().k);
}

/// Run a filter program on a syscall number.
fn verdict(program: &[BpfInstruction], number: u32) -> u32 {
    let mut pc = 0usize;
    loop {
        let i = &program[pc];
        pc += 1;
        match i.code {
            0x20 => {}
            0x15 => pc += if i.k == number { i.jt as usize } else { i.jf as usize },
            0x05 => pc += i.k as usize,
            0x06 => return i.k,
            other => panic!("unexpected code {other:#x}"),
        }
    }
}

#[test]
fn filter_denies_exactly_the_blocked_syscalls() {
    let config = SeccompConfig::default();
    let program = compile_filter(&config);
    for number in 0..500u32 {
        let blocked = config.blocked_syscalls.iter().any(|s| s.number == number);
        let want = if blocked { 0x0005_0001 } else { 0x7fff_0000 };
        assert_eq!(verdict(&program, number), want, "syscall {number}");
    }
}

#[test]
fn long_filters_reach_the_deny_verdict() {
    let blocked: Vec<BlockedSyscall> =
        (0..600).map(|n| BlockedSyscall { name: format!("s{n}"), number: 2 * n }).collect();
    let program = compile_filter(&SeccompConfig { blocked_syscalls: blocked, kill_on_violation: true });
    for number in 0..1300u32 {
        let want = if number % 2 == 0 && number < 1200 { 0x8000_0000 } else { 0x7fff_0000 };
        assert_eq!(verdict(&program, number), want, "syscall {number}");
    }
}

#[test]
fn filter_installation_plan() {
    let steps = install_filter(&SeccompConfig::default());
    assert!(matches!(steps[..], [Step::NoNewPrivileges, Step::InstallFilter { .. }]));
    assert_eq!(
        steps[1].error("14".into()).to_string(),
        "seccomp error: prctl(PR_SET_SECCOMP) failed: errno=14"
    );
}

#[test]
fn container_spec_defaults() {
    let spec = ContainerSpec::new("test-1", "alpine:latest");
    assert_eq!(spec.id, "test-1");
    assert_eq!(spec.image, "alpine:latest");
    assert!(!spec.command.is_empty());
}

fn small_spec() -> ContainerSpec {
    ContainerSpec {
        id: "c-1".into(),
        image: "test:latest".into(),
        command: vec!["/bin/true".into()],
        env: Vec::new(),
        working_dir: "/".into(),
        resources: ResourceSpec::new(1000, 512),
        namespaces: NamespaceConfig::none(),
        seccomp: SeccompConfig::default(),
        network: None,
    }
}

#[test]
fn spawn_container_creates_rootfs() {
    let runtime = ContainerRuntime::new("/var/lib/leviathan");
    assert_eq!(runtime.state_dir(), "/var/lib/leviathan");
    let mut run = runtime.spawn_container(&small_spec());
    assert!(matches!(
        run.current(),
        Some(Step::MakeDir { path, .. }) if path == "/var/lib/leviathan/c-1/rootfs/proc"
    ));
    assert_eq!(runtime.spawned(&run), None);
    let mut count = 0;
    while run.current().is_some() {
        assert!(!matches!(run.current(), Some(Step::PivotRoot { .. })));
        run.report(Ok(())).expect("spawn");
        count += 1;
    }
    // Seven directories, four cgroup steps, three mounts and two for the filter.
    assert_eq!(count, 16);
    assert_eq!(runtime.spawned(&run), Some(ContainerState::Created));
}

#[test]
fn spawn_stops_at_the_first_error() {
    let runtime = ContainerRuntime::new("/s");
    let mut run = runtime.spawn_container(&ContainerSpec::new("c-2", "alpine"));
    for _ in 0..7 {
        run.report(Ok(())).expect("directories");
    }
    let failure = StepFailure { ran: false, reason: "Permission denied".into() };
    let e = run.report(Err(failure)).unwrap_err();
    assert_eq!(
        e.to_string(),
        "cgroup error: cgroup: mkdir /sys/fs/cgroup/leviathan/c-2: Permission denied"
    );
    assert_eq!(runtime.spawned(&run), None);
}

#[test]
fn isolated_containers_switch_their_root() {
    let runtime = ContainerRuntime::new("/s");
    let run = runtime.spawn_container(&ContainerSpec::new("c-3", "alpine"));
    let pivot = run.steps.iter().position(|s| matches!(s, Step::PivotRoot { .. }));
    let unshare = run.steps.iter().position(|s| matches!(s, Step::Unshare { .. }));
    let filter = run.steps.iter().position(|s| matches!(s, Step::InstallFilter { .. }));
    let net = run.steps.iter().position(|s| matches!(s, Step::RunIp { .. }));
    assert!(unshare < pivot && pivot < filter && filter < net);
}

#[test]
fn stop_container_returns_stopped() {
    let runtime = ContainerRuntime::new("/s");
    assert!(matches!(
        runtime.cleanup("c-1"),
        Step::RemoveCgroup { path } if path == "/sys/fs/cgroup/leviathan/c-1"
    ));
    let (state, warning) = runtime.stop_container("c-1", Ok(()));
    assert!(matches!(state, ContainerState::Stopped { exit_code: 0 }));
    assert!(warning.is_none());
    let failure = StepFailure { ran: false, reason: "busy".into() };
    let (state, warning) = runtime.stop_container("c-1", Err(failure));
    assert!(matches!(state, ContainerState::Stopped { exit_code: 0 }));
    assert_eq!(
        warning.unwrap().to_string(),
        "cgroup error: cgroup: rmdir /sys/fs/cgroup/leviathan/c-1: busy"
    );
}

#[test]
fn container_state_not_found() {
    let runtime = ContainerRuntime::new("/s");
    assert_eq!(runtime.rootfs("nonexistent"), "/s/nonexistent/rootfs");
    let state = runtime.container_state(false);
    assert!(matches!(state, ContainerState::Failed { .. }));
    assert_eq!(runtime.container_state(true), ContainerState::Created);
}

#[test]
fn paths_join_like_unix_paths() {
    for (base, part) in [("/a", "b"), ("/a/", "b"), ("/a", "/b"), ("", "b"), ("a", ""), ("", "")] {
        let want = std::path::Path::new(base).join(part);
        assert_eq!(join(base, part), want.to_str().unwrap(), "{base} + {part}");
    }
}
