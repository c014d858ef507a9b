# Leviathan

A distributed container orchestration platform. The library under `src/` is written
in Verus: every function states its behaviour in a contract, and the contracts are
proved, save those of the small functions that call other crates.

| Module | Contents |
|--------|----------|
| `model` | nodes, containers, resources, errors |
| `encoding`, `net` | the binary encoding, frames, messages, gRPC requests |
| `storage` | the write-ahead log and the memory-mapped store |
| `raft` | consensus: log, node, state machine, and the safety of the cluster |
| `scheduler` | placement of containers on nodes |
| `runtime` | namespaces, cgroups, mounts, seccomp filters, networking, as plans |
| `mesh` | trace context, sidecar proxy, TLS configuration |
| `control`, `agent` | the control plane's registry and the worker's protocol |
| `metrics`, `cli` | the metrics endpoint and the command line |

The library performs no I/O. Where an operation takes system calls, the library
decides what is to be done and judges what came of it; `app/` does it. Calls into
other crates stand behind small functions whose contracts say what is relied on:
`bincode`, `chrono`, `memmap2`, `prometheus-client`, `rand`, `rcgen`, `rustls`,
`serde_json`.

Beside the contracts, properties that relate several functions are stated as public
proof functions. Those of consensus are in `raft::protocol`: election safety, log
matching, leader completeness and state machine safety hold of every run in which
nodes react to events as `raft::node` has them react, whatever the network and the
disks do. Nodes keep their term and vote for as long as they run; restarts are
outside these statements.
