//! The command-line interface: commands and what they print.

use vstd::prelude::*;
use vstd::string::*;

use crate::text::{decimal, owned, push_decimal, text_views};

verus! {

/// Node management commands.
#[derive(Debug)]
pub enum NodeCommand {
    /// Start the node daemon and register with the control plane.
    Start {
        /// Unique identifier for this node (e.g. `node-1`).
        id: String,
        /// The `host:port` address this node will listen on.
        addr: String,
        /// CPU capacity in millicores.
        cpu: u64,
        /// Memory capacity in MiB.
        memory: u64,
    },
    /// List all nodes registered in the cluster.
    List,
}

/// Container management commands.
#[derive(Debug)]
pub enum ContainerCommand {
    /// Submit a container workload to the cluster.
    Run {
        /// OCI image reference to execute (e.g. `ubuntu:22.04`).
        image: String,
        /// A human-readable name for this container instance.
        name: String,
    },
    /// List all containers tracked by the control plane.
    List,
}

/// Cluster-level commands.
#[derive(Debug)]
pub enum ClusterCommand {
    /// Print overall cluster health.
    Status,
    /// Print the version and build information.
    Version,
}

/// What a node command prints.
pub open spec fn node_lines(command: NodeCommand) -> Seq<Seq<char>> {
    match command {
        NodeCommand::Start { id, addr, cpu, memory } => seq![
            "To run the official high-performance background daemon, please execute:"@,
            "  cargo run -p leviathan-node -- --id "@ + id@ + " --addr "@ + addr@,
            "  Node resources: "@ + decimal(cpu as nat) + "m CPU / "@ + decimal(memory as nat)
                + "Mi"@,
        ],
        NodeCommand::List => seq![
            "[NOT IMPLEMENTED YET] node list"@,
            "  → Day 3: will query control plane over TCP and print node table."@,
        ],
    }
}

/// Carry out a node command: the lines it prints.
pub fn handle_node(command: NodeCommand) -> (lines: Vec<String>)
    ensures
        text_views(lines@) == node_lines(command),
{
    let lines: Vec<String> = match &command {
        NodeCommand::Start { id, addr, cpu, memory } => {
            let mut run = owned("  cargo run -p leviathan-node -- --id ");
            run.append(id.as_str());
            run.append(" --addr ");
            run.append(addr.as_str());
            let mut resources = owned("  Node resources: ");
            push_decimal(&mut resources, *cpu);
            resources.append("m CPU / ");
            push_decimal(&mut resources, *memory);
            resources.append("Mi");
            vec![
                owned("To run the official high-performance background daemon, please execute:"),
                run,
                resources,
            ]
        },
        NodeCommand::List => vec![
            owned("[NOT IMPLEMENTED YET] node list"),
            owned("  → Day 3: will query control plane over TCP and print node table."),
        ],
    };
    assert(text_views(lines@) =~= node_lines(command));
    lines
}

/// What a container command prints.
pub open spec fn container_lines(command: ContainerCommand) -> Seq<Seq<char>> {
    match command {
        ContainerCommand::Run { image, name } => seq![
            "[NOT IMPLEMENTED YET] container run  image="@ + image@ + "  name="@ + name@,
            "  → Day 6: will set up Linux namespaces and cgroups via unsafe Rust."@,
        ],
        ContainerCommand::List => seq![
            "[NOT IMPLEMENTED YET] container list"@,
            "  → Day 3: will query control plane and render container table."@,
        ],
    }
}

/// Carry out a container command: the lines it prints.
pub fn handle_container(command: ContainerCommand) -> (lines: Vec<String>)
    ensures
        text_views(lines@) == container_lines(command),
{
    let lines: Vec<String> = match &command {
        ContainerCommand::Run { image, name } => {
            let mut run = owned("[NOT IMPLEMENTED YET] container run  image=");
            run.append(image.as_str());
            run.append("  name=");
            run.append(name.as_str());
            vec![
                run,
                owned("  → Day 6: will set up Linux namespaces and cgroups via unsafe Rust."),
            ]
        },
        ContainerCommand::List => vec![
            owned("[NOT IMPLEMENTED YET] container list"),
            owned("  → Day 3: will query control plane and render container table."),
        ],
    };
    assert(text_views(lines@) =~= container_lines(command));
    lines
}

/// What a cluster command prints, for a package version and name.
pub open spec fn cluster_lines(
    command: ClusterCommand,
    version: Seq<char>,
    package: Seq<char>,
) -> Seq<Seq<char>> {
    match command {
        ClusterCommand::Status => seq![
            "[NOT IMPLEMENTED YET] cluster status"@,
            "  → Day 5: will contact Raft leader and print cluster summary."@,
        ],
        ClusterCommand::Version => seq!["leviathan "@ + version + " ("@ + package + ")"@],
    }
}

/// Carry out a cluster command: the lines it prints.
pub fn handle_cluster(command: ClusterCommand, version: &str, package: &str) -> (lines: Vec<
    String,
>)
    ensures
        text_views(lines@) == cluster_lines(command, version@, package@),
{
    let lines: Vec<String> = match &command {
        ClusterCommand::Status => vec![
            owned("[NOT IMPLEMENTED YET] cluster status"),
            owned("  → Day 5: will contact Raft leader and print cluster summary."),
        ],
        ClusterCommand::Version => {
            let mut line = owned("leviathan ");
            line.append(version);
            line.append(" (");
            line.append(package);
            line.append(")");
            vec![line]
        },
    };
    assert(text_views(lines@) =~= cluster_lines(command, version@, package@));
    lines
}

/// The log level for a number of verbosity flags.
pub fn log_level(verbose: u8) -> (level: &'static str)
    ensures
        level@ == (if verbose == 0 {
            "warn"@
        } else if verbose == 1 {
            "info"@
        } else if verbose == 2 {
            "debug"@
        } else {
            "trace"@
        }),
{
    match verbose {
        0 => "warn",
        1 => "info",
        2 => "debug",
        _ => "trace",
    }
}

/// Starting a node tells how to run the daemon for that node, with its ID, its address and
/// its capacity.
pub proof fn start_names_the_node(id: String, addr: String, cpu: u64, memory: u64)
    ensures
        ({
            let lines = node_lines(NodeCommand::Start { id, addr, cpu, memory });
            &&& lines.len() == 3
            &&& lines[1] == "  cargo run -p leviathan-node -- --id "@ + id@ + " --addr "@ + addr@
            &&& lines[2] == "  Node resources: "@ + decimal(cpu as nat) + "m CPU / "@ + decimal(
                memory as nat,
            ) + "Mi"@
        }),
{
}

/// Running a container names its image and its name, and asking for the version gives the
/// version and the package.
pub proof fn commands_name_what_they_are_about(
    image: String,
    name: String,
    version: Seq<char>,
    package: Seq<char>,
)
    ensures
        container_lines(ContainerCommand::Run { image, name })[0]
            == "[NOT IMPLEMENTED YET] container run  image="@ + image@ + "  name="@ + name@,
        cluster_lines(ClusterCommand::Version, version, package) == seq![
            "leviathan "@ + version + " ("@ + package + ")"@,
        ],
{
}

/// More flags never make the log quieter: without any only warnings are logged, and each of
/// the first three flags adds a level.
pub proof fn flags_raise_the_log_level(
    a: &'static str,
    b: &'static str,
    c: &'static str,
    n: u8,
    d: &'static str,
)
    requires
        call_ensures(log_level, (0u8,), a),
        call_ensures(log_level, (1u8,), b),
        call_ensures(log_level, (2u8,), c),
        n >= 3,
        call_ensures(log_level, (n,), d),
    ensures
        a@ == "warn"@,
        b@ == "info"@,
        c@ == "debug"@,
        d@ == "trace"@,
{
}

} // verus!
