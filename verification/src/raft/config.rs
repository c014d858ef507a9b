//! Raft cluster configuration.

use vstd::prelude::*;

use crate::text::owned;

verus! {

/// Configuration for a single Raft node. All durations are in milliseconds.
#[derive(Debug)]
pub struct RaftConfig {
    /// Minimum election timeout.
    pub election_timeout_min_ms: u64,
    /// Maximum election timeout (exclusive upper bound).
    pub election_timeout_max_ms: u64,
    /// Heartbeat interval; substantially less than the election timeout.
    pub heartbeat_interval_ms: u64,
    /// Maximum number of log entries in a single `AppendEntries`.
    pub max_entries_per_append: usize,
    /// Maximum number of uncommitted entries before proposals are rejected.
    pub max_uncommitted_entries: u64,
    /// Bounded channel capacity for message passing between nodes.
    pub channel_capacity: usize,
    /// Unique identifier of this node in the cluster.
    pub node_id: u64,
    /// All node IDs in the cluster, including this node's.
    pub peers: Vec<u64>,
    /// Whether a node must win a pre-vote round before it increments its term
    /// and starts a real election.
    pub pre_vote_enabled: bool,
}

/// The number of nodes that make a majority of a cluster.
pub open spec fn quorum(nodes: nat) -> nat {
    nodes / 2 + 1
}

impl RaftConfig {
    /// The first rule of the configuration that is broken, if any.
    pub open spec fn broken_rule(&self) -> Option<Seq<char>> {
        if self.election_timeout_min_ms >= self.election_timeout_max_ms {
            Some("election_timeout_min_ms must be < election_timeout_max_ms"@)
        } else if self.heartbeat_interval_ms >= self.election_timeout_min_ms {
            Some("heartbeat_interval_ms must be << election_timeout_min_ms"@)
        } else if self.peers@.len() == 0 {
            Some("peers must contain at least one node (self)"@)
        } else if !self.peers@.contains(self.node_id) {
            Some("peers must contain self (node_id)"@)
        } else if self.max_entries_per_append == 0 {
            Some("max_entries_per_append must be > 0"@)
        } else {
            None
        }
    }

    /// Compute the quorum size: floor(N/2) + 1, where N counts all nodes.
    pub fn quorum_size(&self) -> (n: usize)
        ensures
            n == quorum(self.peers@.len()),
    {
        self.peers.len() / 2 + 1
    }

    /// Return the election timeout range in milliseconds.
    pub fn election_timeout_range(&self) -> (range: (u64, u64))
        ensures
            range == (self.election_timeout_min_ms, self.election_timeout_max_ms),
    {
        (self.election_timeout_min_ms, self.election_timeout_max_ms)
    }

    /// Return the heartbeat interval in milliseconds.
    pub fn heartbeat_interval(&self) -> (ms: u64)
        ensures
            ms == self.heartbeat_interval_ms,
    {
        self.heartbeat_interval_ms
    }

    /// Whether a node is listed among the peers.
    pub fn is_peer(&self, node: u64) -> (b: bool)
        ensures
            b == self.peers@.contains(node),
    {
        let mut i: usize = 0;
        while i < self.peers.len()
            invariant
                i <= self.peers.len(),
                forall|k: int| 0 <= k < i ==> self.peers[k] != node,
            decreases self.peers.len() - i,
        {
            if self.peers[i] == node {
                return true;
            }
            i += 1;
        }
        false
    }

    /// Validate the configuration and describe the first broken rule, if any.
    pub fn validate(&self) -> (r: Option<String>)
        ensures
            match r {
                Some(s) => self.broken_rule() == Some(s@),
                None => self.broken_rule() is None,
            },
    {
        if self.election_timeout_min_ms >= self.election_timeout_max_ms {
            return Some(owned("election_timeout_min_ms must be < election_timeout_max_ms"));
        }
        if self.heartbeat_interval_ms >= self.election_timeout_min_ms {
            return Some(owned("heartbeat_interval_ms must be << election_timeout_min_ms"));
        }
        if self.peers.len() == 0 {
            return Some(owned("peers must contain at least one node (self)"));
        }
        if !self.is_peer(self.node_id) {
            return Some(owned("peers must contain self (node_id)"));
        }
        if self.max_entries_per_append == 0 {
            return Some(owned("max_entries_per_append must be > 0"));
        }
        None
    }
}

impl Default for RaftConfig {
    /// Sensible defaults for a three-node LAN cluster.
    fn default() -> (c: Self)
        ensures
            c.election_timeout_min_ms == 150,
            c.election_timeout_max_ms == 300,
            c.heartbeat_interval_ms == 50,
            c.max_entries_per_append == 64,
            c.max_uncommitted_entries == 4096,
            c.channel_capacity == 256,
            c.node_id == 1,
            c.peers@ == seq![1u64, 2, 3],
            c.pre_vote_enabled,
    {
        RaftConfig {
            election_timeout_min_ms: 150,
            election_timeout_max_ms: 300,
            heartbeat_interval_ms: 50,
            max_entries_per_append: 64,
            max_uncommitted_entries: 4096,
            channel_capacity: 256,
            node_id: 1,
            peers: vec![1, 2, 3],
            pre_vote_enabled: true,
        }
    }
}

/// A quorum is the least number of nodes that is more than half of them, so any two share
/// a node.
pub proof fn quorums_are_the_least_majorities(nodes: nat)
    ensures
        2 * quorum(nodes) > nodes,
        2 * (quorum(nodes) - 1) <= nodes,
{
}

/// A configuration is accepted exactly if the heartbeat interval is below the shortest
/// election timeout and that below the longest, the node is one of its peers, and a
/// message can carry an entry.
pub proof fn accepted_configurations_are_sound(c: RaftConfig)
    ensures
        c.broken_rule() is None <==> {
            &&& c.heartbeat_interval_ms < c.election_timeout_min_ms
            &&& c.election_timeout_min_ms < c.election_timeout_max_ms
            &&& c.peers@.contains(c.node_id)
            &&& c.max_entries_per_append > 0
        },
{
}

/// The quorum that is computed is the least majority of the peers, and a configuration is
/// found sound exactly if it is.
pub proof fn quorums_and_rules_are_computed(c: RaftConfig, n: usize, broken: Option<String>)
    requires
        call_ensures(RaftConfig::quorum_size, (&c,), n),
        call_ensures(RaftConfig::validate, (&c,), broken),
    ensures
        2 * n > c.peers@.len(),
        2 * (n - 1) <= c.peers@.len(),
        broken is None <==> {
            &&& c.heartbeat_interval_ms < c.election_timeout_min_ms
            &&& c.election_timeout_min_ms < c.election_timeout_max_ms
            &&& c.peers@.contains(c.node_id)
            &&& c.max_entries_per_append > 0
        },
{
    quorums_are_the_least_majorities(c.peers@.len());
    accepted_configurations_are_sound(c);
}

} // verus!
