//! Placement scheduler.
//!
//! - [`FirstFitScheduler`]: the first node with capacity.
//! - [`BestFitScheduler`]: the node with the least remaining capacity.
//! - [`FirstFitDecreasingScheduler`]: the best-scoring node, and among those the
//!   tightest fit.

use vstd::prelude::*;
use vstd::string::*;

use crate::model::container::Container;
use crate::model::error::LeviathanError;
use crate::model::node::{Node, NodeId, NodeStatus};
use crate::model::resources::ResourceSpec;
use crate::text::{decimal, owned};

verus! {

/// A node on which a container can be placed: it is ready and has the capacity.
pub open spec fn viable(node: Node, container: Container) -> bool {
    node.status == NodeStatus::Ready && container.resources.fits(node.resources)
}

/// No node can take the container.
pub open spec fn none_viable(nodes: Seq<Node>, container: Container) -> bool {
    forall|i: int| 0 <= i < nodes.len() ==> !viable(#[trigger] nodes[i], container)
}

/// Why a container could not be placed.
pub open spec fn refusal(container: Container) -> Seq<char> {
    "no Ready node can satisfy "@ + container.resources.text() + " for container '"@
        + container.name@ + "'"@
}

/// The error for a container that could not be placed.
pub open spec fn refused(e: LeviathanError, container: Container) -> bool {
    e matches LeviathanError::NoSchedulableNode { reason } && reason@ == refusal(container)
}

/// The capacity that a node would have left, CPU and memory taken together.
pub open spec fn waste(node: Node, container: Container) -> int {
    let left = node.resources.minus(container.resources);
    left.cpu_millicores + left.memory_mib
}

/// A placement strategy for scheduling containers onto nodes.
pub trait Scheduler {
    /// Whether the strategy picks the node at a position.
    spec fn picks(&self, nodes: Seq<Node>, container: Container, i: int) -> bool;

    /// Select a node for the given container: a viable one, picked by the
    /// strategy. It fails exactly when no node is viable.
    fn select_node(&self, nodes: &[Node], container: &Container) -> (r: Result<
        NodeId,
        LeviathanError,
    >)
        ensures
            match r {
                Ok(id) => exists|i: int|
                    0 <= i < nodes@.len() && #[trigger] self.picks(nodes@, *container, i) && viable(
                        nodes@[i],
                        *container,
                    ) && id == nodes@[i].id,
                Err(e) => none_viable(nodes@, *container) && refused(e, *container),
            },
    ;
}

/// The error for a container that no node can take.
fn no_node(container: &Container) -> (e: LeviathanError)
    ensures
        refused(e, *container),
{
    let mut reason = owned("no Ready node can satisfy ");
    reason.append(container.resources.to_string().as_str());
    reason.append(" for container '");
    reason.append(container.name.as_str());
    reason.append("'");
    LeviathanError::NoSchedulableNode { reason }
}

/// Whether a container can be placed on a node.
fn is_viable(node: &Node, container: &Container) -> (b: bool)
    ensures
        b == viable(*node, *container),
{
    node.status == NodeStatus::Ready && container.resources.fits_within(&node.resources)
}

/// A scheduling decision that can be replicated.
#[derive(Debug, Clone)]
pub struct SchedulingDecision {
    /// Container being scheduled.
    pub container_id: String,
    /// Selected node ID.
    pub node_id: String,
    /// Scheduling timestamp (epoch millis).
    pub timestamp_ms: u64,
    /// Resource spec for the container.
    pub resources: ResourceSpec,
}

/// Picks the first ready node with sufficient resources.
#[derive(Debug, Default)]
pub struct FirstFitScheduler;

impl Scheduler for FirstFitScheduler {
    /// Every earlier node is not viable.
    open spec fn picks(&self, nodes: Seq<Node>, container: Container, i: int) -> bool {
        forall|j: int| 0 <= j < i ==> !viable(#[trigger] nodes[j], container)
    }

    fn select_node(&self, nodes: &[Node], container: &Container) -> (r: Result<
        NodeId,
        LeviathanError,
    >) {
        let mut i: usize = 0;
        while i < nodes.len()
            invariant
                i <= nodes@.len(),
                self.picks(nodes@, *container, i as int),
            decreases nodes@.len() - i,
        {
            if is_viable(&nodes[i], container) {
                return Ok(nodes[i].id.clone());
            }
            i += 1;
        }
        Err(no_node(container))
    }
}

/// Picks the ready node with the least remaining capacity after placement.
#[derive(Debug, Default)]
pub struct BestFitScheduler;

impl Scheduler for BestFitScheduler {
    /// No viable node has less left, and no earlier one as little.
    open spec fn picks(&self, nodes: Seq<Node>, container: Container, i: int) -> bool {
        forall|j: int|
            0 <= j < nodes.len() && viable(#[trigger] nodes[j], container) ==> {
                &&& waste(nodes[i], container) <= waste(nodes[j], container)
                &&& j < i ==> waste(nodes[i], container) < waste(nodes[j], container)
            }
    }

    fn select_node(&self, nodes: &[Node], container: &Container) -> (r: Result<
        NodeId,
        LeviathanError,
    >) {
        let mut best: Option<usize> = None;
        let mut least: u128 = 0;
        let mut i: usize = 0;
        while i < nodes.len()
            invariant
                i <= nodes@.len(),
                match best {
                    None => forall|j: int|
                        0 <= j < i ==> !viable(#[trigger] nodes@[j], *container),
                    Some(b) => {
                        &&& b < i
                        &&& viable(nodes@[b as int], *container)
                        &&& least == waste(nodes@[b as int], *container)
                        &&& forall|j: int|
                            0 <= j < i && viable(#[trigger] nodes@[j], *container) ==> {
                                &&& least <= waste(nodes@[j], *container)
                                &&& j < b ==> least < waste(nodes@[j], *container)
                            }
                    },
                },
            decreases nodes@.len() - i,
        {
            if is_viable(&nodes[i], container) {
                let left = nodes[i].resources - container.resources;
                let score: u128 = left.cpu_millicores as u128 + left.memory_mib as u128;
                let better: bool = match best {
                    None => true,
                    Some(_) => score < least,
                };
                if better {
                    best = Some(i);
                    least = score;
                }
            }
            i += 1;
        }
        match best {
            Some(b) => {
                assert(self.picks(nodes@, *container, b as int));
                Ok(nodes[b].id.clone())
            },
            None => Err(no_node(container)),
        }
    }
}

/// Scores nodes for affinity and anti-affinity rules.
pub trait Scorer {
    /// The score of a node for a container; the same for all unless stated
    /// otherwise.
    open spec fn scored(&self, node: Node, container: Container) -> u64 {
        1
    }

    /// Score a node for a container. Higher is preferred.
    fn score(&self, node: &Node, container: &Container) -> (r: u64)
        ensures
            r == self.scored(*node, *container),
    ;

    /// Human-readable name of this scorer for logging.
    fn name(&self) -> String;
}

/// A scorer that gives all nodes equal weight.
#[derive(Debug, Default)]
pub struct DefaultScorer;

impl Scorer for DefaultScorer {
    fn score(&self, node: &Node, container: &Container) -> (r: u64) {
        1
    }

    fn name(&self) -> (s: String)
        ensures
            s@ == "default"@,
    {
        owned("default")
    }
}

/// The largest CPU capacity of the nodes, at least one.
pub open spec fn max_cpu(nodes: Seq<Node>) -> nat
    decreases nodes.len(),
{
    if nodes.len() == 0 {
        1
    } else {
        let rest = max_cpu(nodes.drop_last());
        let last = nodes.last().resources.cpu_millicores as nat;
        if last > rest {
            last
        } else {
            rest
        }
    }
}

/// The largest memory capacity of the nodes, at least one.
pub open spec fn max_memory(nodes: Seq<Node>) -> nat
    decreases nodes.len(),
{
    if nodes.len() == 0 {
        1
    } else {
        let rest = max_memory(nodes.drop_last());
        let last = nodes.last().resources.memory_mib as nat;
        if last > rest {
            last
        } else {
            rest
        }
    }
}

/// What a node would have left, CPU and memory each in proportion to the largest
/// capacity of the cluster and with equal weight. The proportions are brought to
/// their common denominator.
pub open spec fn proportional_waste(nodes: Seq<Node>, container: Container, i: int) -> int {
    let left = nodes[i].resources.minus(container.resources);
    left.cpu_millicores * max_memory(nodes) + left.memory_mib * max_cpu(nodes)
}

/// Compare two sums without computing them.
fn smaller_sum(a: u128, b: u128, c: u128, d: u128) -> (r: bool)
    ensures
        r == (a + b < c + d),
{
    if a <= c {
        if b <= d {
            a < c || b < d
        } else {
            b - d < c - a
        }
    } else if b >= d {
        false
    } else {
        a - c < d - b
    }
}

/// First-fit decreasing: the best-scoring node, and among those the tightest fit.
#[derive(Debug)]
pub struct FirstFitDecreasingScheduler<S: Scorer> {
    /// Scorer for affinity and anti-affinity rules.
    pub scorer: S,
}

impl FirstFitDecreasingScheduler<DefaultScorer> {
    /// Create a scheduler with the default (uniform) scorer.
    pub fn with_default_scorer() -> (r: Self)
        ensures
            r.scorer == DefaultScorer,
    {
        FirstFitDecreasingScheduler { scorer: DefaultScorer }
    }
}

impl<S: Scorer> FirstFitDecreasingScheduler<S> {
    /// The node at one position ranks before that at another: it scores higher, or
    /// it scores the same and would have less left.
    pub open spec fn ranks_before(
        &self,
        nodes: Seq<Node>,
        container: Container,
        i: int,
        j: int,
    ) -> bool {
        let a = self.scorer.scored(nodes[i], container);
        let b = self.scorer.scored(nodes[j], container);
        a > b || (a == b && proportional_waste(nodes, container, i) < proportional_waste(
            nodes,
            container,
            j,
        ))
    }

    /// Create a scheduler with the given scorer.
    pub fn new(scorer: S) -> (r: Self)
        ensures
            r.scorer == scorer,
    {
        FirstFitDecreasingScheduler { scorer }
    }
}

/// The largest capacities of the nodes, at least one each.
fn largest(nodes: &[Node]) -> (r: (u64, u64))
    ensures
        r.0 == max_cpu(nodes@),
        r.1 == max_memory(nodes@),
{
    let mut cpu: u64 = 1;
    let mut memory: u64 = 1;
    let mut i: usize = 0;
    assert(nodes@.take(0) =~= Seq::empty());
    while i < nodes.len()
        invariant
            i <= nodes@.len(),
            cpu == max_cpu(nodes@.take(i as int)),
            memory == max_memory(nodes@.take(i as int)),
        decreases nodes@.len() - i,
    {
        assert(nodes@.take(i + 1).drop_last() =~= nodes@.take(i as int));
        if nodes[i].resources.cpu_millicores > cpu {
            cpu = nodes[i].resources.cpu_millicores;
        }
        if nodes[i].resources.memory_mib > memory {
            memory = nodes[i].resources.memory_mib;
        }
        i += 1;
    }
    assert(nodes@.take(i as int) =~= nodes@);
    (cpu, memory)
}

/// The product of two numbers.
fn product(a: u64, b: u64) -> (r: u128)
    ensures
        r == a * b,
{
    assert(0 <= a * b <= 0xffff_ffff_ffff_ffff * 0xffff_ffff_ffff_ffff) by (nonlinear_arith)
        requires
            0 <= a <= 0xffff_ffff_ffff_ffff,
            0 <= b <= 0xffff_ffff_ffff_ffff,
    ;
    a as u128 * b as u128
}

impl<S: Scorer> Scheduler for FirstFitDecreasingScheduler<S> {
    /// No viable node ranks before, and every earlier one ranks after.
    open spec fn picks(&self, nodes: Seq<Node>, container: Container, i: int) -> bool {
        forall|j: int|
            0 <= j < nodes.len() && viable(#[trigger] nodes[j], container) ==> {
                &&& !self.ranks_before(nodes, container, j, i)
                &&& j < i ==> self.ranks_before(nodes, container, i, j)
            }
    }

    fn select_node(&self, nodes: &[Node], container: &Container) -> (r: Result<
        NodeId,
        LeviathanError,
    >) {
        let (cpu, memory): (u64, u64) = largest(nodes);
        let mut best: Option<usize> = None;
        let mut best_score: u64 = 0;
        let mut best_cpu: u128 = 0;
        let mut best_memory: u128 = 0;
        let mut i: usize = 0;
        while i < nodes.len()
            invariant
                i <= nodes@.len(),
                cpu == max_cpu(nodes@),
                memory == max_memory(nodes@),
                match best {
                    None => forall|j: int|
                        0 <= j < i ==> !viable(#[trigger] nodes@[j], *container),
                    Some(b) => {
                        &&& b < i
                        &&& viable(nodes@[b as int], *container)
                        &&& best_score == self.scorer.scored(nodes@[b as int], *container)
                        &&& best_cpu + best_memory == proportional_waste(
                            nodes@,
                            *container,
                            b as int,
                        )
                        &&& forall|j: int|
                            0 <= j < i && viable(#[trigger] nodes@[j], *container) ==> {
                                &&& !self.ranks_before(nodes@, *container, j, b as int)
                                &&& j < b ==> self.ranks_before(nodes@, *container, b as int, j)
                            }
                    },
                },
            decreases nodes@.len() - i,
        {
            if is_viable(&nodes[i], container) {
                let left = nodes[i].resources - container.resources;
                let left_cpu: u128 = product(left.cpu_millicores, memory);
                let left_memory: u128 = product(left.memory_mib, cpu);
                let score: u64 = self.scorer.score(&nodes[i], container);
                assert(left_cpu + left_memory == proportional_waste(nodes@, *container, i as int));
                let better: bool = match best {
                    None => true,
                    Some(_) => score > best_score || (score == best_score && smaller_sum(
                        left_cpu,
                        left_memory,
                        best_cpu,
                        best_memory,
                    )),
                };
                if better {
                    best = Some(i);
                    best_score = score;
                    best_cpu = left_cpu;
                    best_memory = left_memory;
                }
            }
            i += 1;
        }
        match best {
            Some(b) => {
                assert(self.picks(nodes@, *container, b as int));
                Ok(nodes[b].id.clone())
            },
            None => Err(no_node(container)),
        }
    }
}

/// A container goes only to a node that is ready and has at least the CPU and the memory
/// that it asks for, and it is refused only where there is no such node.
pub proof fn placement_needs_a_ready_node_with_capacity(
    nodes: Seq<Node>,
    container: Container,
    i: int,
)
    requires
        0 <= i < nodes.len(),
    ensures
        viable(nodes[i], container) <==> nodes[i].status == NodeStatus::Ready
            && nodes[i].resources.cpu_millicores >= container.resources.cpu_millicores
            && nodes[i].resources.memory_mib >= container.resources.memory_mib,
        none_viable(nodes, container) ==> nodes[i].status != NodeStatus::Ready
            || nodes[i].resources.cpu_millicores < container.resources.cpu_millicores
            || nodes[i].resources.memory_mib < container.resources.memory_mib,
{
}

/// First fit: of two nodes that could take the container, the later one is never picked.
pub proof fn first_fit_takes_the_earliest(
    s: FirstFitScheduler,
    nodes: Seq<Node>,
    container: Container,
    i: int,
    j: int,
)
    requires
        0 <= j < i < nodes.len(),
        s.picks(nodes, container, i),
    ensures
        nodes[j].status != NodeStatus::Ready || nodes[j].resources.cpu_millicores
            < container.resources.cpu_millicores || nodes[j].resources.memory_mib
            < container.resources.memory_mib,
{
    assert(!viable(nodes[j], container));
}

/// Best fit: on the picked node CPU and memory left over add up to no more than on any
/// other ready node with the capacity, and to less than on any such node before it.
pub proof fn best_fit_leaves_the_least(
    s: BestFitScheduler,
    nodes: Seq<Node>,
    container: Container,
    i: int,
    j: int,
)
    requires
        0 <= i < nodes.len(),
        0 <= j < nodes.len(),
        viable(nodes[i], container),
        s.picks(nodes, container, i),
        nodes[j].status == NodeStatus::Ready,
        nodes[j].resources.cpu_millicores >= container.resources.cpu_millicores,
        nodes[j].resources.memory_mib >= container.resources.memory_mib,
    ensures
        ({
            let c = container.resources;
            let n = nodes[i].resources;
            let m = nodes[j].resources;
            let left = (n.cpu_millicores - c.cpu_millicores) + (n.memory_mib - c.memory_mib);
            let other = (m.cpu_millicores - c.cpu_millicores) + (m.memory_mib - c.memory_mib);
            left <= other && (j < i ==> left < other)
        }),
{
    assert(viable(nodes[j], container));
}

/// Best fit: of two ready nodes that differ in one resource only, and in that one both
/// have enough, the one with more of it is not picked.
pub proof fn best_fit_spares_the_larger_node(
    s: BestFitScheduler,
    nodes: Seq<Node>,
    container: Container,
    i: int,
    j: int,
)
    requires
        0 <= i < nodes.len(),
        0 <= j < nodes.len(),
        viable(nodes[i], container),
        viable(nodes[j], container),
        s.picks(nodes, container, i),
    ensures
        nodes[i].resources.cpu_millicores == nodes[j].resources.cpu_millicores
            ==> nodes[i].resources.memory_mib <= nodes[j].resources.memory_mib,
        nodes[i].resources.memory_mib == nodes[j].resources.memory_mib
            ==> nodes[i].resources.cpu_millicores <= nodes[j].resources.cpu_millicores,
{
}

/// The largest capacities are those of nodes, or one where there is nothing larger, and
/// no node has more.
proof fn largest_bounds(nodes: Seq<Node>)
    ensures
        forall|k: int|
            0 <= k < nodes.len() ==> (#[trigger] nodes[k]).resources.cpu_millicores <= max_cpu(
                nodes,
            ) && nodes[k].resources.memory_mib <= max_memory(nodes),
        max_cpu(nodes) >= 1,
        max_memory(nodes) >= 1,
        max_cpu(nodes) == 1 || exists|k: int|
            0 <= k < nodes.len() && (#[trigger] nodes[k]).resources.cpu_millicores == max_cpu(
                nodes,
            ),
        max_memory(nodes) == 1 || exists|k: int|
            0 <= k < nodes.len() && (#[trigger] nodes[k]).resources.memory_mib == max_memory(
                nodes,
            ),
    decreases nodes.len(),
{
    if nodes.len() > 0 {
        let before = nodes.drop_last();
        largest_bounds(before);
        assert forall|k: int| 0 <= k < nodes.len() implies (
        #[trigger] nodes[k]).resources.cpu_millicores <= max_cpu(nodes)
            && nodes[k].resources.memory_mib <= max_memory(nodes) by {
            if k < before.len() {
                assert(nodes[k] == before[k]);
            }
        }
        let last = nodes.len() - 1;
        assert(nodes[last] == nodes.last());
        if max_cpu(nodes) != 1 && max_cpu(nodes) == max_cpu(before) {
            let k = choose|k: int|
                0 <= k < before.len() && (#[trigger] before[k]).resources.cpu_millicores
                    == max_cpu(before);
            assert(nodes[k] == before[k]);
        }
        if max_memory(nodes) != 1 && max_memory(nodes) == max_memory(before) {
            let k = choose|k: int|
                0 <= k < before.len() && (#[trigger] before[k]).resources.memory_mib
                    == max_memory(before);
            assert(nodes[k] == before[k]);
        }
    }
}

/// First-fit decreasing: no ready node with the capacity scores higher than the picked
/// one, and of those that score the same none has less left over, CPU and memory each
/// taken as a share of the largest capacity in the cluster; none before it has as little.
pub proof fn decreasing_fit_goes_by_score_then_share<S: Scorer>(
    s: FirstFitDecreasingScheduler<S>,
    nodes: Seq<Node>,
    container: Container,
    i: int,
    j: int,
    cpu: nat,
    memory: nat,
)
    requires
        0 <= i < nodes.len(),
        0 <= j < nodes.len(),
        viable(nodes[i], container),
        s.picks(nodes, container, i),
        nodes[j].status == NodeStatus::Ready,
        nodes[j].resources.cpu_millicores >= container.resources.cpu_millicores,
        nodes[j].resources.memory_mib >= container.resources.memory_mib,
        cpu >= 1,
        memory >= 1,
        forall|k: int|
            0 <= k < nodes.len() ==> (#[trigger] nodes[k]).resources.cpu_millicores <= cpu
                && nodes[k].resources.memory_mib <= memory,
        cpu == 1 || exists|k: int|
            0 <= k < nodes.len() && (#[trigger] nodes[k]).resources.cpu_millicores == cpu,
        memory == 1 || exists|k: int|
            0 <= k < nodes.len() && (#[trigger] nodes[k]).resources.memory_mib == memory,
    ensures
        s.scorer.scored(nodes[i], container) >= s.scorer.scored(nodes[j], container),
        s.scorer.scored(nodes[i], container) == s.scorer.scored(nodes[j], container) ==> {
            let c = container.resources;
            let n = nodes[i].resources;
            let m = nodes[j].resources;
            let left = (n.cpu_millicores - c.cpu_millicores) * memory + (n.memory_mib
                - c.memory_mib) * cpu;
            let other = (m.cpu_millicores - c.cpu_millicores) * memory + (m.memory_mib
                - c.memory_mib) * cpu;
            left <= other && (j < i ==> left < other)
        },
{
    largest_bounds(nodes);
    assert(max_cpu(nodes) == cpu);
    assert(max_memory(nodes) == memory);
    assert(viable(nodes[j], container));
}

/// Why a container was refused: the words name what it asked for and the container.
pub proof fn refusals_name_the_request(container: Container)
    ensures
        refusal(container) == "no Ready node can satisfy "@ + decimal(
            container.resources.cpu_millicores as nat,
        ) + "m CPU / "@ + decimal(container.resources.memory_mib as nat) + "Mi"@
            + " for container '"@ + container.name@ + "'"@,
{
    assert(refusal(container) =~= "no Ready node can satisfy "@ + decimal(
        container.resources.cpu_millicores as nat,
    ) + "m CPU / "@ + decimal(container.resources.memory_mib as nat) + "Mi"@ + " for container '"@
        + container.name@ + "'"@);
}

/// The default scorer prefers no node to another, so what is left over decides alone.
pub proof fn default_scores_are_all_the_same(s: DefaultScorer, a: Node, b: Node, c: Container)
    ensures
        s.scored(a, c) == s.scored(b, c),
{
}

/// Best fit, by its outcome: the node picked is ready, has what the container asks for, and
/// no other such node would be left with less CPU and memory together; there is no pick
/// exactly if there is no such node.
pub proof fn best_fit_outcome(
    s: BestFitScheduler,
    nodes: &[Node],
    container: &Container,
    r: Result<NodeId, LeviathanError>,
    j: int,
)
    requires
        call_ensures(BestFitScheduler::select_node, (&s, nodes, container), r),
        0 <= j < nodes@.len(),
        nodes@[j].status == NodeStatus::Ready,
        nodes@[j].resources.cpu_millicores >= container.resources.cpu_millicores,
        nodes@[j].resources.memory_mib >= container.resources.memory_mib,
    ensures
        r is Ok,
        exists|i: int|
            {
                &&& 0 <= i < nodes@.len()
                &&& (#[trigger] nodes@[i]).id == r->Ok_0
                &&& nodes@[i].status == NodeStatus::Ready
                &&& nodes@[i].resources.cpu_millicores >= container.resources.cpu_millicores
                &&& nodes@[i].resources.memory_mib >= container.resources.memory_mib
                &&& nodes@[i].resources.cpu_millicores + nodes@[i].resources.memory_mib
                    <= nodes@[j].resources.cpu_millicores + nodes@[j].resources.memory_mib
            },
{
    assert(viable(nodes@[j], *container));
    let i = choose|i: int|
        0 <= i < nodes@.len() && #[trigger] s.picks(nodes@, *container, i) && viable(
            nodes@[i],
            *container,
        ) && r->Ok_0 == nodes@[i].id;
    best_fit_leaves_the_least(s, nodes@, *container, i, j);
    assert(nodes@[i].id == r->Ok_0);
}

/// First fit, by its outcome: the first ready node that has what the container asks for.
pub proof fn first_fit_outcome(
    s: FirstFitScheduler,
    nodes: &[Node],
    container: &Container,
    r: Result<NodeId, LeviathanError>,
    j: int,
)
    requires
        call_ensures(FirstFitScheduler::select_node, (&s, nodes, container), r),
        0 <= j < nodes@.len(),
        nodes@[j].status == NodeStatus::Ready,
        nodes@[j].resources.cpu_millicores >= container.resources.cpu_millicores,
        nodes@[j].resources.memory_mib >= container.resources.memory_mib,
    ensures
        r is Ok,
        exists|i: int|
            {
                &&& 0 <= i <= j
                &&& (#[trigger] nodes@[i]).id == r->Ok_0
                &&& nodes@[i].status == NodeStatus::Ready
                &&& nodes@[i].resources.cpu_millicores >= container.resources.cpu_millicores
                &&& nodes@[i].resources.memory_mib >= container.resources.memory_mib
            },
{
    assert(viable(nodes@[j], *container));
    let i = choose|i: int|
        0 <= i < nodes@.len() && #[trigger] s.picks(nodes@, *container, i) && viable(
            nodes@[i],
            *container,
        ) && r->Ok_0 == nodes@[i].id;
    assert(nodes@[i].id == r->Ok_0);
    if j < i {
        first_fit_takes_the_earliest(s, nodes@, *container, i, j);
    }
}

/// First-fit decreasing, by its outcome: of the ready nodes that have what the container
/// asks for, one with the highest score, and of those one with the least left over in
/// proportion.
pub proof fn decreasing_fit_outcome<S: Scorer>(
    s: FirstFitDecreasingScheduler<S>,
    nodes: &[Node],
    container: &Container,
    r: Result<NodeId, LeviathanError>,
    j: int,
)
    requires
        call_ensures(
            <FirstFitDecreasingScheduler<S> as Scheduler>::select_node,
            (&s, nodes, container),
            r,
        ),
        0 <= j < nodes@.len(),
        nodes@[j].status == NodeStatus::Ready,
        nodes@[j].resources.cpu_millicores >= container.resources.cpu_millicores,
        nodes@[j].resources.memory_mib >= container.resources.memory_mib,
    ensures
        r is Ok,
        exists|i: int|
            {
                &&& 0 <= i < nodes@.len()
                &&& (#[trigger] nodes@[i]).id == r->Ok_0
                &&& nodes@[i].status == NodeStatus::Ready
                &&& nodes@[i].resources.cpu_millicores >= container.resources.cpu_millicores
                &&& nodes@[i].resources.memory_mib >= container.resources.memory_mib
                &&& s.scorer.scored(nodes@[i], *container) >= s.scorer.scored(
                    nodes@[j],
                    *container,
                )
                &&& s.scorer.scored(nodes@[i], *container) == s.scorer.scored(
                    nodes@[j],
                    *container,
                ) && nodes@[i].resources.cpu_millicores == nodes@[j].resources.cpu_millicores
                    ==> nodes@[i].resources.memory_mib <= nodes@[j].resources.memory_mib
                &&& s.scorer.scored(nodes@[i], *container) == s.scorer.scored(
                    nodes@[j],
                    *container,
                ) && nodes@[i].resources.memory_mib == nodes@[j].resources.memory_mib
                    ==> nodes@[i].resources.cpu_millicores <= nodes@[j].resources.cpu_millicores
            },
{
    assert(viable(nodes@[j], *container));
    let i = choose|i: int|
        0 <= i < nodes@.len() && #[trigger] s.picks(nodes@, *container, i) && viable(
            nodes@[i],
            *container,
        ) && r->Ok_0 == nodes@[i].id;
    assert(nodes@[i].id == r->Ok_0);
    largest_bounds(nodes@);
    let cpu = max_cpu(nodes@);
    let memory = max_memory(nodes@);
    decreasing_fit_goes_by_score_then_share(s, nodes@, *container, i, j, cpu, memory);
    let c = container.resources;
    let n = nodes@[i].resources;
    let m = nodes@[j].resources;
    if s.scorer.scored(nodes@[i], *container) == s.scorer.scored(nodes@[j], *container) {
        let a = n.cpu_millicores - c.cpu_millicores;
        let b = n.memory_mib - c.memory_mib;
        let x = m.cpu_millicores - c.cpu_millicores;
        let y = m.memory_mib - c.memory_mib;
        if a == x {
            assert(b <= y) by (nonlinear_arith)
                requires
                    a * memory + b * cpu <= a * memory + y * cpu,
                    cpu >= 1,
            ;
        }
        if b == y {
            assert(a <= x) by (nonlinear_arith)
                requires
                    a * memory + b * cpu <= x * memory + b * cpu,
                    memory >= 1,
            ;
        }
    }
}

} // verus!
