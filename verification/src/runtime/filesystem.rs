//! Container filesystem setup: directories, mounts and `pivot_root`.

use vstd::prelude::*;
use vstd::string::*;

use crate::runtime::paths::{below, join, joined, path_below};
use crate::runtime::steps::{step_views, MountFlags, Step, StepView};
use crate::text::{owned, text_views};

verus! {

/// Configuration for a container's filesystem.
#[derive(Debug)]
pub struct FilesystemConfig {
    /// Path to the container's root filesystem.
    pub rootfs: String,
    /// OCI image layers to extract, in order, bottom to top: paths of tar archives.
    pub layers: Vec<String>,
    /// Additional bind mounts: (host path, container path).
    pub bind_mounts: Vec<(String, String)>,
    /// Whether to mount `/proc` inside the container.
    pub mount_proc: bool,
    /// Whether to mount `/sys` inside the container (read-only).
    pub mount_sys: bool,
    /// Whether to mount `/dev` inside the container.
    pub mount_dev: bool,
}

impl Default for FilesystemConfig {
    fn default() -> (c: Self)
        ensures
            c.rootfs@ == "/tmp/leviathan/rootfs"@,
            c.layers@.len() == 0,
            c.bind_mounts@.len() == 0,
            c.mount_proc,
            c.mount_sys,
            c.mount_dev,
    {
        FilesystemConfig {
            rootfs: owned("/tmp/leviathan/rootfs"),
            layers: Vec::new(),
            bind_mounts: Vec::new(),
            mount_proc: true,
            mount_sys: true,
            mount_dev: true,
        }
    }
}

/// The creation of a directory below the root filesystem.
pub open spec fn directory_step(rootfs: Seq<char>, dir: Seq<char>) -> StepView {
    StepView::MakeDir { path: joined(rootfs, dir), operation: "mkdir "@ + joined(rootfs, dir) }
}

/// The steps that create the directory structure of a root filesystem.
pub open spec fn rootfs_steps(rootfs: Seq<char>) -> Seq<StepView> {
    seq![
        directory_step(rootfs, "proc"@),
        directory_step(rootfs, "sys"@),
        directory_step(rootfs, "dev"@),
        directory_step(rootfs, "tmp"@),
        directory_step(rootfs, "etc"@),
        directory_step(rootfs, "bin"@),
        directory_step(rootfs, "usr"@),
    ]
}

fn directory(rootfs: &str, dir: &str) -> (step: Step)
    ensures
        step@ == directory_step(rootfs@, dir@),
{
    let path = join(rootfs, dir);
    let mut operation = owned("mkdir ");
    operation.append(path.as_str());
    Step::MakeDir { path, operation }
}

/// The extraction of an image layer into the root filesystem.
pub open spec fn layer_step(rootfs: Seq<char>, layer: Seq<char>) -> StepView {
    StepView::Extract { archive: layer, target: rootfs, operation: "extract "@ + layer }
}

/// The steps that extract the layers of an image, in order.
pub open spec fn layer_steps(rootfs: Seq<char>, layers: Seq<Seq<char>>) -> Seq<StepView> {
    layers.map_values(|layer: Seq<char>| layer_step(rootfs, layer))
}

/// Plan the creation of the container's root filesystem: the directory structure
/// and essential mount points, then the layers of the image, bottom to top.
pub fn prepare_rootfs(config: &FilesystemConfig) -> (steps: Vec<Step>)
    ensures
        step_views(steps@) == rootfs_steps(config.rootfs@) + layer_steps(
            config.rootfs@,
            text_views(config.layers@),
        ),
{
    let root = config.rootfs.as_str();
    let mut steps: Vec<Step> = Vec::new();
    steps.push(directory(root, "proc"));
    steps.push(directory(root, "sys"));
    steps.push(directory(root, "dev"));
    steps.push(directory(root, "tmp"));
    steps.push(directory(root, "etc"));
    steps.push(directory(root, "bin"));
    steps.push(directory(root, "usr"));
    let ghost dirs = rootfs_steps(config.rootfs@);
    let ghost layers = text_views(config.layers@);
    assert(step_views(steps@) =~= dirs + layer_steps(config.rootfs@, layers.take(0)));
    let mut i: usize = 0;
    while i < config.layers.len()
        invariant
            i <= config.layers@.len(),
            root@ == config.rootfs@,
            layers == text_views(config.layers@),
            step_views(steps@) == dirs + layer_steps(config.rootfs@, layers.take(i as int)),
        decreases config.layers@.len() - i,
    {
        let layer = config.layers[i].as_str();
        let mut operation = owned("extract ");
        operation.append(layer);
        let ghost before = step_views(steps@);
        steps.push(Step::Extract { archive: owned(layer), target: owned(root), operation });
        proof {
            let step = layer_step(config.rootfs@, layers[i as int]);
            assert(step_views(steps@) =~= before.push(step));
            assert(layer_steps(config.rootfs@, layers.take(i + 1)) =~= layer_steps(
                config.rootfs@,
                layers.take(i as int),
            ).push(step));
        }
        i += 1;
    }
    assert(layers.take(i as int) =~= layers);
    steps
}

/// A recursive bind mount.
pub open spec fn bind_recursive() -> MountFlags {
    MountFlags {
        read_only: false,
        no_suid: false,
        no_exec: false,
        no_dev: false,
        bind: true,
        recursive: true,
    }
}

/// The steps of `pivot_root`.
pub open spec fn pivot_steps(rootfs: Seq<char>) -> Seq<StepView> {
    seq![
        StepView::MakeDir { path: joined(rootfs, "old_root"@), operation: "mkdir old_root"@ },
        StepView::Mount {
            source: rootfs,
            target: rootfs,
            fstype: None,
            flags: bind_recursive(),
            operation: "bind mount rootfs"@,
        },
        StepView::PivotRoot { new_root: rootfs, put_old: joined(rootfs, "old_root"@) },
        StepView::ChangeDir { path: "/"@ },
        StepView::Detach { target: "/old_root"@, operation: "umount old_root"@ },
        StepView::RemoveDir { path: "/old_root"@ },
    ]
}

fn mount_point(rootfs: &str, inside: &str) -> (step: Step)
    ensures
        step@ == bind_pair(rootfs@, (Seq::empty(), inside@))[0],
{
    let path = path_below(rootfs, inside);
    let mut operation = owned("mkdir ");
    operation.append(path.as_str());
    Step::MakeDir { path, operation }
}

fn bind_mount(rootfs: &str, host: &str, inside: &str) -> (step: Step)
    ensures
        step@ == bind_pair(rootfs@, (host@, inside@))[1],
{
    let target = path_below(rootfs, inside);
    let mut operation = owned("bind mount ");
    operation.append(target.as_str());
    let flags = MountFlags {
        read_only: false,
        no_suid: false,
        no_exec: false,
        no_dev: false,
        bind: true,
        recursive: true,
    };
    Step::Mount { source: owned(host), target, fstype: None, flags, operation }
}

/// Plan the switch of the root filesystem: bind the rootfs onto itself, make it
/// the root with the old root below it, enter it and detach the old root. It must
/// only be carried out inside a new mount namespace.
pub fn pivot_root(rootfs: &str) -> (steps: Vec<Step>)
    ensures
        step_views(steps@) == pivot_steps(rootfs@),
{
    let mut steps: Vec<Step> = Vec::new();
    steps.push(
        Step::MakeDir { path: join(rootfs, "old_root"), operation: owned("mkdir old_root") },
    );
    let flags = MountFlags {
        read_only: false,
        no_suid: false,
        no_exec: false,
        no_dev: false,
        bind: true,
        recursive: true,
    };
    steps.push(
        Step::Mount {
            source: owned(rootfs),
            target: owned(rootfs),
            fstype: None,
            flags,
            operation: owned("bind mount rootfs"),
        },
    );
    steps.push(Step::PivotRoot { new_root: owned(rootfs), put_old: join(rootfs, "old_root") });
    steps.push(Step::ChangeDir { path: owned("/") });
    steps.push(Step::Detach { target: owned("/old_root"), operation: owned("umount old_root") });
    steps.push(Step::RemoveDir { path: owned("/old_root") });
    assert(step_views(steps@) =~= pivot_steps(rootfs@));
    steps
}

/// A kernel filesystem without executables, set-user-ID bits or devices.
pub open spec fn kernel_mount(read_only: bool) -> MountFlags {
    MountFlags {
        read_only,
        no_suid: true,
        no_exec: true,
        no_dev: true,
        bind: false,
        recursive: false,
    }
}

/// The mount of `/proc`.
pub open spec fn proc_step(rootfs: Seq<char>) -> StepView {
    StepView::Mount {
        source: "proc"@,
        target: joined(rootfs, "proc"@),
        fstype: Some("proc"@),
        flags: kernel_mount(false),
        operation: "mount proc"@,
    }
}

/// The mount of `/sys`, read-only.
pub open spec fn sys_step(rootfs: Seq<char>) -> StepView {
    StepView::Mount {
        source: "sysfs"@,
        target: joined(rootfs, "sys"@),
        fstype: Some("sysfs"@),
        flags: kernel_mount(true),
        operation: "mount sysfs"@,
    }
}

/// The bind mount of `/dev`.
pub open spec fn dev_step(rootfs: Seq<char>) -> StepView {
    StepView::Mount {
        source: "/dev"@,
        target: joined(rootfs, "dev"@),
        fstype: None,
        flags: bind_recursive(),
        operation: "mount dev"@,
    }
}

/// A step, if it is wanted.
pub open spec fn step_if(wanted: bool, step: StepView) -> Seq<StepView> {
    if wanted {
        seq![step]
    } else {
        Seq::empty()
    }
}

/// The mounts of the essential filesystems.
pub open spec fn mount_steps(rootfs: Seq<char>, proc_: bool, sys: bool, dev: bool) -> Seq<StepView> {
    step_if(proc_, proc_step(rootfs)) + step_if(sys, sys_step(rootfs)) + step_if(
        dev,
        dev_step(rootfs),
    )
}

/// The views of a list of bind mounts.
pub open spec fn bind_views(list: Seq<(String, String)>) -> Seq<(Seq<char>, Seq<char>)> {
    Seq::new(list.len(), |i: int| (list[i].0@, list[i].1@))
}

/// The steps of a bind mount: its mount point is created below the root filesystem.
pub open spec fn bind_pair(rootfs: Seq<char>, bind: (Seq<char>, Seq<char>)) -> Seq<StepView> {
    let target = below(rootfs, bind.1);
    seq![
        StepView::MakeDir { path: target, operation: "mkdir "@ + target },
        StepView::Mount {
            source: bind.0,
            target,
            fstype: None,
            flags: bind_recursive(),
            operation: "bind mount "@ + target,
        },
    ]
}

/// The steps of the additional bind mounts, in order.
pub open spec fn bind_steps(rootfs: Seq<char>, binds: Seq<(Seq<char>, Seq<char>)>) -> Seq<StepView>
    decreases binds.len(),
{
    if binds.len() == 0 {
        Seq::empty()
    } else {
        bind_steps(rootfs, binds.drop_last()) + bind_pair(rootfs, binds.last())
    }
}

/// Plan the mounts of `/proc`, `/sys` and `/dev` inside the container, each if
/// the configuration asks for it, and then the additional bind mounts.
pub fn mount_essential_filesystems(config: &FilesystemConfig) -> (steps: Vec<Step>)
    ensures
        step_views(steps@) == mount_steps(
            config.rootfs@,
            config.mount_proc,
            config.mount_sys,
            config.mount_dev,
        ) + bind_steps(config.rootfs@, bind_views(config.bind_mounts@)),
{
    let root = config.rootfs.as_str();
    let mut steps: Vec<Step> = Vec::new();
    if config.mount_proc {
        let flags = MountFlags {
            read_only: false,
            no_suid: true,
            no_exec: true,
            no_dev: true,
            bind: false,
            recursive: false,
        };
        steps.push(
            Step::Mount {
                source: owned("proc"),
                target: join(root, "proc"),
                fstype: Some(owned("proc")),
                flags,
                operation: owned("mount proc"),
            },
        );
    }
    if config.mount_sys {
        let flags = MountFlags {
            read_only: true,
            no_suid: true,
            no_exec: true,
            no_dev: true,
            bind: false,
            recursive: false,
        };
        steps.push(
            Step::Mount {
                source: owned("sysfs"),
                target: join(root, "sys"),
                fstype: Some(owned("sysfs")),
                flags,
                operation: owned("mount sysfs"),
            },
        );
    }
    if config.mount_dev {
        let flags = MountFlags {
            read_only: false,
            no_suid: false,
            no_exec: false,
            no_dev: false,
            bind: true,
            recursive: true,
        };
        steps.push(
            Step::Mount {
                source: owned("/dev"),
                target: join(root, "dev"),
                fstype: None,
                flags,
                operation: owned("mount dev"),
            },
        );
    }
    let ghost essential = mount_steps(
        config.rootfs@,
        config.mount_proc,
        config.mount_sys,
        config.mount_dev,
    );
    let ghost binds = bind_views(config.bind_mounts@);
    assert(step_views(steps@) =~= essential + bind_steps(config.rootfs@, binds.take(0)));
    let mut i: usize = 0;
    while i < config.bind_mounts.len()
        invariant
            i <= config.bind_mounts@.len(),
            root@ == config.rootfs@,
            binds == bind_views(config.bind_mounts@),
            step_views(steps@) == essential + bind_steps(config.rootfs@, binds.take(i as int)),
        decreases config.bind_mounts@.len() - i,
    {
        let (host, inside) = &config.bind_mounts[i];
        let ghost before = step_views(steps@);
        steps.push(mount_point(root, inside.as_str()));
        steps.push(bind_mount(root, host.as_str(), inside.as_str()));
        proof {
            let pair = bind_pair(config.rootfs@, binds[i as int]);
            assert(step_views(steps@) =~= before + pair);
            assert(binds.take(i + 1).drop_last() =~= binds.take(i as int));
            assert(step_views(steps@) =~= essential + bind_steps(
                config.rootfs@,
                binds.take(i + 1),
            ));
        }
        i += 1;
    }
    assert(binds.take(i as int) =~= binds);
    steps
}

/// The root filesystem gets the directories that a system expects: each of them is made
/// below the root.
pub proof fn standard_directories_are_made(rootfs: Seq<char>, dir: Seq<char>)
    requires
        dir == "proc"@ || dir == "sys"@ || dir == "dev"@ || dir == "tmp"@ || dir == "etc"@ || dir
            == "bin"@ || dir == "usr"@,
    ensures
        exists|i: int|
            0 <= i < rootfs_steps(rootfs).len() && (#[trigger] rootfs_steps(rootfs)[i]) is MakeDir
                && rootfs_steps(rootfs)[i]->MakeDir_path == joined(rootfs, dir),
{
    let steps = rootfs_steps(rootfs);
    let i: int = if dir == "proc"@ {
        0
    } else if dir == "sys"@ {
        1
    } else if dir == "dev"@ {
        2
    } else if dir == "tmp"@ {
        3
    } else if dir == "etc"@ {
        4
    } else if dir == "bin"@ {
        5
    } else {
        6
    };
    assert(steps[i] == directory_step(rootfs, dir));
}

/// Every layer of an image is unpacked into the root filesystem, in the given order.
pub proof fn layers_are_unpacked_in_order(rootfs: Seq<char>, layers: Seq<Seq<char>>, i: int)
    requires
        0 <= i < layers.len(),
    ensures
        layer_steps(rootfs, layers).len() == layers.len(),
        layer_steps(rootfs, layers)[i] is Extract,
        layer_steps(rootfs, layers)[i]->archive == layers[i],
        layer_steps(rootfs, layers)[i]->Extract_target == rootfs,
{
}

/// Kernel filesystems are mounted below the root without set-user-ID bits, executables
/// and devices, `/sys` read-only, each exactly if it is wanted; the host's `/dev` is
/// bound into it.
pub proof fn essential_mounts_are_as_wanted(
    rootfs: Seq<char>,
    proc_: bool,
    sys: bool,
    dev: bool,
    i: int,
)
    ensures
        ({
            let steps = mount_steps(rootfs, proc_, sys, dev);
            let from = |source: Seq<char>, s: StepView| s is Mount && s->source == source;
            &&& proc_ <==> exists|k: int|
                0 <= k < steps.len() && from("proc"@, #[trigger] steps[k])
            &&& sys <==> exists|k: int|
                0 <= k < steps.len() && from("sysfs"@, #[trigger] steps[k])
            &&& dev <==> exists|k: int|
                0 <= k < steps.len() && from("/dev"@, #[trigger] steps[k])
            &&& 0 <= i < steps.len() ==> {
                let s = steps[i];
                &&& s is Mount
                &&& s->source == "proc"@ || s->source == "sysfs"@ || s->source == "/dev"@
                &&& s->source == "proc"@ ==> s->Mount_target == joined(rootfs, "proc"@)
                    && s->fstype == Some("proc"@) && s->flags.no_suid && s->flags.no_exec
                    && s->flags.no_dev && !s->flags.bind && !s->flags.read_only
                &&& s->source == "sysfs"@ ==> s->Mount_target == joined(rootfs, "sys"@)
                    && s->fstype == Some("sysfs"@) && s->flags.no_suid && s->flags.no_exec
                    && s->flags.no_dev && !s->flags.bind && s->flags.read_only
                &&& s->source == "/dev"@ ==> s->Mount_target == joined(rootfs, "dev"@)
                    && s->fstype is None && s->flags.bind && s->flags.recursive
                    && !s->flags.read_only
            }
        }),
{
    let steps = mount_steps(rootfs, proc_, sys, dev);
    reveal_strlit("proc");
    reveal_strlit("sysfs");
    reveal_strlit("/dev");
    assert("proc"@[0] == 'p' && "sysfs"@[0] == 's' && "/dev"@[0] == '/');
    let a: int = if proc_ { 1 } else { 0 };
    let b: int = if sys { 1 } else { 0 };
    let d: int = if dev { 1 } else { 0 };
    assert(steps.len() == a + b + d);
    if proc_ {
        assert(steps[0] == proc_step(rootfs));
    }
    if sys {
        assert(steps[a] == sys_step(rootfs));
    }
    if dev {
        assert(steps[a + b] == dev_step(rootfs));
    }
    assert forall|k: int| 0 <= k < steps.len() implies (k < a && #[trigger] steps[k] == proc_step(
        rootfs,
    )) || (a <= k < a + b && steps[k] == sys_step(rootfs)) || (a + b <= k && steps[k] == dev_step(
        rootfs,
    )) by {
    }
}

/// Every configured bind mount has its mount point made below the root, wherever the
/// path inside the container starts, and the host's path mounted on it.
pub proof fn bind_mounts_are_made_in_order(
    rootfs: Seq<char>,
    binds: Seq<(Seq<char>, Seq<char>)>,
    i: int,
)
    requires
        0 <= i < binds.len(),
    ensures
        ({
            let steps = bind_steps(rootfs, binds);
            &&& steps.len() == 2 * binds.len()
            &&& steps[2 * i] is MakeDir
            &&& steps[2 * i]->MakeDir_path == below(rootfs, binds[i].1)
            &&& steps[2 * i + 1] is Mount
            &&& steps[2 * i + 1]->source == binds[i].0
            &&& steps[2 * i + 1]->Mount_target == below(rootfs, binds[i].1)
            &&& steps[2 * i + 1]->flags.bind
            &&& steps[2 * i + 1]->flags.recursive
            &&& !steps[2 * i + 1]->flags.read_only
        }),
    decreases binds.len(),
{
    let before = binds.drop_last();
    bind_count(rootfs, before);
    bind_count(rootfs, binds);
    let head = bind_steps(rootfs, before);
    let tail = bind_pair(rootfs, binds.last());
    let steps = bind_steps(rootfs, binds);
    assert(steps == head + tail);
    if i < before.len() {
        bind_mounts_are_made_in_order(rootfs, before, i);
        assert(before[i] == binds[i]);
        assert(steps[2 * i] == head[2 * i] && steps[2 * i + 1] == head[2 * i + 1]);
    } else {
        assert(steps[2 * i] == tail[0] && steps[2 * i + 1] == tail[1]);
    }
}

proof fn bind_count(rootfs: Seq<char>, binds: Seq<(Seq<char>, Seq<char>)>)
    ensures
        bind_steps(rootfs, binds).len() == 2 * binds.len(),
    decreases binds.len(),
{
    if binds.len() > 0 {
        bind_count(rootfs, binds.drop_last());
    }
}

/// The root is switched to the root filesystem, which is bound onto itself before; the
/// process enters the new root, and only then the old one is detached and its mount point
/// removed.
pub proof fn the_old_root_is_left_behind(rootfs: Seq<char>)
    ensures
        ({
            let steps = pivot_steps(rootfs);
            let old = joined(rootfs, "old_root"@);
            &&& steps.len() == 6
            &&& steps[0] is MakeDir && steps[0]->MakeDir_path == old
            &&& steps[1] is Mount && steps[1]->source == rootfs && steps[1]->Mount_target == rootfs
                && steps[1]->flags.bind && steps[1]->flags.recursive
            &&& steps[2] == (StepView::PivotRoot { new_root: rootfs, put_old: old })
            &&& steps[3] == (StepView::ChangeDir { path: "/"@ })
            &&& steps[4] is Detach && steps[4]->Detach_target == "/old_root"@
            &&& steps[5] == (StepView::RemoveDir { path: "/old_root"@ })
        }),
{
}

} // verus!
