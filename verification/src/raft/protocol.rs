//! The cluster as a whole, and the safety properties of Raft.
//!
//! A [`Cluster`] is a set of nodes, each taking steps by
//! [`NodeState::react`](crate::raft::node::NodeState::react), and the set of all
//! messages ever sent. The network may lose, delay, reorder and duplicate
//! messages, and storage may fail at any operation. Beside the nodes the cluster
//! records its history: the vote that each node cast in each term, who won each
//! election with whose votes, and the log of each term's leader.
//!
//! The properties proved of every reachable cluster:
//! - [`election_safety`]: at most one leader per term;
//! - [`log_matching`]: logs that agree at an index agree up to it;
//! - [`leader_completeness`]: what is committed is in every later leader's log;
//! - [`state_machine_safety`]: no two nodes commit different entries at an index.

use vstd::prelude::*;

use crate::raft::config::quorum;
use crate::raft::log::{
    contiguous, entry_at, last_index, last_term, merge_ops, merged, prev_matches, range, term_at,
    LogState,
};
use crate::raft::message::{Entry, Message};
use crate::raft::node::{last_new_index, Envelope, Event, NodeState, Role};

verus! {

/// A vote, with the voter's log at the time.
#[verifier::ext_equal]
pub struct Ballot {
    pub candidate: u64,
    pub log: Seq<Entry>,
}

/// A won election.
#[verifier::ext_equal]
pub struct Election {
    pub leader: u64,
    pub voters: Set<u64>,
}

/// The nodes, the messages sent so far, and the history of votes, elections and
/// leaders' logs.
#[verifier::ext_equal]
pub struct Cluster {
    pub peers: Seq<u64>,
    pub nodes: Map<u64, NodeState>,
    pub sent: Set<Envelope>,
    pub ballots: Map<(u64, u64), Ballot>,
    pub elections: Map<u64, Election>,
    pub logs: Map<u64, Seq<Entry>>,
}

/// A node that has just been constructed with an empty log.
pub open spec fn fresh_node(s: NodeState, id: u64, peers: Seq<u64>) -> bool {
    &&& s.id == id
    &&& s.peers == peers
    &&& s.term == 0
    &&& s.voted_for is None
    &&& s.role == Role::Follower
    &&& s.log == (LogState { entries: Seq::empty(), commit: 0, applied: 0 })
    &&& s.votes == Set::<u64>::empty()
    &&& !s.pre_voting
    &&& s.pre_votes == Set::<u64>::empty()
    &&& s.next_index == Map::<u64, u64>::empty()
    &&& s.match_index == Map::<u64, u64>::empty()
}

impl Cluster {
    /// A cluster whose nodes have just started.
    pub open spec fn init(self) -> bool {
        &&& self.peers.no_duplicates()
        &&& forall|i: u64| #[trigger] self.nodes.contains_key(i) <==> self.peers.contains(i)
        &&& forall|i: u64| #[trigger]
            self.nodes.contains_key(i) ==> fresh_node(self.nodes[i], i, self.peers)
        &&& self.sent == Set::<Envelope>::empty()
        &&& self.ballots == Map::<(u64, u64), Ballot>::empty()
        &&& self.elections == Map::<u64, Election>::empty()
        &&& self.logs == Map::<u64, Seq<Entry>>::empty()
    }

    /// The cluster after node `i` went over to state `s` and sent messages, with
    /// its history brought up to date.
    pub open spec fn updated(self, i: u64, s: NodeState, sends: Seq<Envelope>) -> Cluster {
        let old = self.nodes[i];
        Cluster {
            peers: self.peers,
            nodes: self.nodes.insert(i, s),
            sent: self.sent.union(sends.to_set()),
            ballots: if s.voted_for is Some && (s.term != old.term || old.voted_for is None) {
                self.ballots.insert(
                    (i, s.term),
                    Ballot { candidate: s.voted_for->0, log: s.log.entries },
                )
            } else {
                self.ballots
            },
            elections: if s.role == Role::Leader && old.role != Role::Leader {
                self.elections.insert(
                    s.term,
                    Election { leader: i, voters: s.votes.insert(i) },
                )
            } else {
                self.elections
            },
            logs: if s.role == Role::Leader {
                self.logs.insert(s.term, s.log.entries)
            } else {
                self.logs
            },
        }
    }

    /// Whether node `i` can react to an event now: a message must have been sent
    /// to it, and its counters must have room.
    pub open spec fn enabled(self, i: u64, event: Event) -> bool {
        &&& self.nodes.contains_key(i)
        &&& self.nodes[i].has_room(event)
        &&& event matches Event::Receive(msg) ==> self.sent.contains(Envelope { to: i, msg })
    }

    /// The cluster after node `i` reacted to an event, of whose storage
    /// operations the first `completed` succeeded.
    pub open spec fn after(self, i: u64, event: Event, completed: nat) -> Cluster {
        let r = self.nodes[i].react(event, completed, Seq::empty());
        self.updated(i, r.state, r.sends)
    }

    /// One step of the cluster.
    pub open spec fn next(self, other: Cluster) -> bool {
        exists|i: u64, event: Event, completed: nat|
            self.enabled(i, event) && other == #[trigger] self.after(i, event, completed)
    }
}

/// A run of a cluster from its start.
pub open spec fn is_run(run: Seq<Cluster>) -> bool {
    &&& run.len() > 0
    &&& run[0].init()
    &&& forall|k: int| 0 < k < run.len() ==> (#[trigger] run[k - 1]).next(run[k])
}

// ---------------------------------------------------------------------------
// Vocabulary
// ---------------------------------------------------------------------------

/// Two logs have the same first `m` entries.
pub open spec fn agree(a: Seq<Entry>, b: Seq<Entry>, m: int) -> bool {
    &&& 0 <= m <= a.len()
    &&& m <= b.len()
    &&& forall|k: int| #![trigger a[k]] #![trigger b[k]] 0 <= k < m ==> a[k] == b[k]
}

/// Every entry of a log was put there by the leader of the entry's term, along
/// with everything before it.
pub open spec fn sound(logs: Map<u64, Seq<Entry>>, log: Seq<Entry>, bound: u64) -> bool {
    &&& contiguous(log)
    &&& forall|k: int|
        0 <= k < log.len() ==> {
            let t = (#[trigger] log[k]).term;
            1 <= t <= bound && logs.contains_key(t) && agree(log, logs[t], k + 1)
        }
    &&& forall|j: int, k: int|
        #![trigger log[j], log[k]]
        0 <= j <= k < log.len() ==> log[j].term <= log[k].term
}

/// A log is at least as up-to-date as another.
pub open spec fn up_to_date(a: Seq<Entry>, b: Seq<Entry>) -> bool {
    last_term(a) > last_term(b) || (last_term(a) == last_term(b) && last_index(a) >= last_index(b))
}

/// The message tells that node `v` matches the leader of term `t` up to `m`.
pub open spec fn is_ack(msg: Message, v: u64, t: u64, m: int) -> bool {
    msg matches Message::AppendEntriesResponse { term, success, match_index, from } && success
        && term == t && from == v && match_index >= m
}

impl Cluster {
    /// The log with which the leader of a term was elected.
    pub open spec fn base(self, t: u64) -> Seq<Entry> {
        self.ballots[(self.elections[t].leader, t)].log
    }

    /// Node `v` is known to hold the first `m` entries of the log of term `t`.
    pub open spec fn acked(self, v: u64, t: u64, m: int) -> bool {
        ||| exists|e: Envelope| #[trigger] self.sent.contains(e) && is_ack(e.msg, v, t, m)
        ||| self.elections.contains_key(t) && self.elections[t].leader == v && 0 <= m
            <= self.logs[t].len()
    }

    /// The first `m` entries of the log of term `t` are committed: the last of
    /// them is of that term and a quorum holds them.
    pub open spec fn committed(self, t: u64, m: int) -> bool {
        &&& self.elections.contains_key(t)
        &&& 1 <= m <= self.logs[t].len()
        &&& self.logs[t][m - 1].term == t
        &&& exists|q: Set<u64>| #[trigger] self.is_quorum(q) && forall|v: u64| #[trigger]
            q.contains(v) ==> self.acked(v, t, m)
    }

    /// A majority of the cluster's nodes.
    pub open spec fn is_quorum(self, q: Set<u64>) -> bool {
        &&& q.finite()
        &&& q.subset_of(self.peers.to_set())
        &&& q.len() >= quorum(self.peers.len())
    }

    /// Some leader of a term after `t` and up to `bound` was elected without the
    /// first `m` entries of the log of term `t`.
    pub open spec fn lost(self, t: u64, m: int, bound: int) -> bool {
        exists|u: u64| t < u <= bound && #[trigger] self.elections.contains_key(u) && !agree(
            self.base(u),
            self.logs[t],
            m,
        )
    }

    /// The first `k` entries of a log are committed in a term up to `bound`.
    pub open spec fn safe(self, log: Seq<Entry>, k: int, bound: u64) -> bool {
        k == 0 || exists|t: u64, m: int|
            t <= bound && k <= m && #[trigger] self.committed(t, m) && agree(log, self.logs[t], k)
    }
}

// ---------------------------------------------------------------------------
// The inductive invariant
// ---------------------------------------------------------------------------

impl Cluster {
    /// The nodes are the peers, and hold votes of other members only.
    pub open spec fn inv_nodes(self) -> bool {
        &&& self.peers.no_duplicates()
        &&& forall|i: u64| #[trigger] self.nodes.contains_key(i) <==> self.peers.contains(i)
        &&& forall|i: u64| #[trigger]
            self.nodes.contains_key(i) ==> {
                let s = self.nodes[i];
                &&& s.id == i
                &&& s.peers == self.peers
                &&& s.votes.finite()
                &&& forall|v: u64| #[trigger] s.votes.contains(v) ==> s.is_other(v)
            }
    }

    /// A node's vote in its current term is on record, and so are its earlier ones.
    pub open spec fn inv_ballots(self) -> bool {
        &&& forall|v: u64, t: u64| #[trigger]
            self.ballots.contains_key((v, t)) ==> {
                &&& self.nodes.contains_key(v)
                &&& 1 <= t <= self.nodes[v].term
                &&& t == self.nodes[v].term ==> self.nodes[v].voted_for == Some(
                    self.ballots[(v, t)].candidate,
                )
            }
        &&& forall|v: u64| #[trigger]
            self.nodes.contains_key(v) ==> {
                let s = self.nodes[v];
                s.voted_for is Some ==> self.ballots.contains_key((v, s.term)) && self.ballots[(
                    v,
                    s.term,
                )].candidate == s.voted_for->0
            }
    }

    /// The candidate was voted for by itself and by all whose votes it holds.
    pub open spec fn inv_candidates(self) -> bool {
        forall|i: u64| #[trigger]
            self.nodes.contains_key(i) && self.nodes[i].role == Role::Candidate ==> {
                let s = self.nodes[i];
                &&& s.voted_for == Some(i)
                &&& self.ballots[(i, s.term)].log == s.log.entries
                &&& forall|v: u64| #[trigger]
                    s.votes.contains(v) ==> self.ballots.contains_key((v, s.term))
                        && self.ballots[(v, s.term)].candidate == i
            }
    }

    /// A vote message tells what is on record.
    pub open spec fn vote_message_ok(self, e: Envelope) -> bool {
        match e.msg {
            Message::RequestVote { term, candidate_id, last_log_index, last_log_term } => {
                &&& self.ballots.contains_key((candidate_id, term))
                &&& self.ballots[(candidate_id, term)].candidate == candidate_id
                &&& last_log_index == last_index(self.ballots[(candidate_id, term)].log)
                &&& last_log_term == last_term(self.ballots[(candidate_id, term)].log)
                &&& e.to != candidate_id
            },
            Message::RequestVoteResponse { term, vote_granted, from } => vote_granted ==> {
                &&& self.ballots.contains_key((from, term))
                &&& self.ballots[(from, term)].candidate == e.to
            },
            _ => true,
        }
    }

    /// Every vote message sent tells what is on record.
    pub open spec fn inv_vote_messages(self) -> bool {
        forall|e: Envelope| #[trigger] self.sent.contains(e) ==> self.vote_message_ok(e)
    }

    /// Votes go to candidates with an up-to-date log.
    pub open spec fn ballot_ok(self, v: u64, t: u64) -> bool {
        let b = self.ballots[(v, t)];
        let c = b.candidate;
        &&& self.ballots.contains_key((c, t))
        &&& self.ballots[(c, t)].candidate == c
        &&& up_to_date(self.ballots[(c, t)].log, b.log)
        &&& sound(self.logs, b.log, t)
        &&& c == v ==> forall|k: int| 0 <= k < b.log.len() ==> (#[trigger] b.log[k]).term < t
    }

    /// Every vote on record went to a candidate with an up-to-date log.
    pub open spec fn inv_ballot_logs(self) -> bool {
        forall|v: u64, t: u64| #[trigger]
            self.ballots.contains_key((v, t)) ==> self.ballot_ok(v, t)
    }

    /// A won election: a quorum voted for the leader, whose log extends the one it was
    /// elected with.
    pub open spec fn election_ok(self, t: u64) -> bool {
        let el = self.elections[t];
        &&& self.nodes.contains_key(el.leader)
        &&& t >= 1
        &&& self.is_quorum(el.voters)
        &&& el.voters.contains(el.leader)
        &&& forall|v: u64| #[trigger]
            el.voters.contains(v) ==> self.ballots.contains_key((v, t)) && self.ballots[(
                v,
                t,
            )].candidate == el.leader
        &&& self.nodes[el.leader].term >= t
        &&& self.nodes[el.leader].term == t ==> self.nodes[el.leader].role == Role::Leader
        &&& self.logs.contains_key(t)
        &&& sound(self.logs, self.logs[t], t)
        &&& agree(self.base(t), self.logs[t], self.base(t).len() as int)
    }

    /// Every election on record was won, and only elected leaders have logs on record.
    pub open spec fn inv_elections(self) -> bool {
        &&& forall|t: u64| #[trigger] self.elections.contains_key(t) ==> self.election_ok(t)
        &&& forall|t: u64| #[trigger] self.logs.contains_key(t) ==> self.elections.contains_key(t)
    }

    /// A leader won the election of its term, and knows of its followers what they
    /// acknowledged.
    pub open spec fn leader_ok(self, i: u64) -> bool {
        let s = self.nodes[i];
        &&& self.elections.contains_key(s.term)
        &&& self.elections[s.term].leader == i
        &&& s.voted_for == Some(i)
        &&& self.logs[s.term] == s.log.entries
        &&& forall|p: u64| #[trigger]
            s.match_index.contains_key(p) ==> s.match_index[p] <= s.log.entries.len()
                && s.match_index[p] < u64::MAX && (s.match_index[p] > 0 ==> self.acked(
                p,
                s.term,
                s.match_index[p] as int,
            ))
        &&& forall|p: u64| #[trigger]
            s.next_index.contains_key(p) ==> 1 <= s.next_index[p] <= s.log.entries.len() + 1
    }

    /// Every leader is in order.
    pub open spec fn inv_leaders(self) -> bool {
        forall|i: u64| #[trigger]
            self.nodes.contains_key(i) && self.nodes[i].role == Role::Leader ==> self.leader_ok(i)
    }

    /// Every node's log was put together by leaders.
    pub open spec fn inv_node_logs(self) -> bool {
        forall|i: u64| #[trigger]
            self.nodes.contains_key(i) ==> sound(
                self.logs,
                self.nodes[i].log.entries,
                self.nodes[i].term,
            )
    }

    /// A replication message carries a stretch of the log of its term's leader.
    pub open spec fn append_message_ok(self, e: Envelope) -> bool {
        match e.msg {
            Message::AppendEntries {
                term,
                leader_id,
                prev_log_index,
                prev_log_term,
                entries,
                leader_commit,
            } => {
                let log = self.logs[term];
                &&& self.elections.contains_key(term)
                &&& self.elections[term].leader == leader_id
                &&& e.to != leader_id
                &&& prev_log_index + entries.len() <= log.len()
                &&& forall|k: int|
                    0 <= k < entries.len() ==> #[trigger] entries[k] == log[prev_log_index + k]
                &&& prev_log_index > 0 ==> prev_log_term == log[prev_log_index - 1].term
                &&& leader_commit <= log.len()
                &&& self.safe(log, leader_commit as int, term)
            },
            Message::AppendEntriesResponse { term, success, match_index, from } => success ==> {
                &&& self.elections.contains_key(term)
                &&& match_index <= self.logs[term].len()
                &&& self.nodes.contains_key(from)
                &&& term <= self.nodes[from].term
            },
            _ => true,
        }
    }

    /// Every replication message sent is in order.
    pub open spec fn inv_append_messages(self) -> bool {
        forall|e: Envelope| #[trigger] self.sent.contains(e) ==> self.append_message_ok(e)
    }

    /// A node keeps what it acknowledged, unless a later leader lost it.
    pub open spec fn inv_acks(self) -> bool {
        forall|v: u64, t: u64, m: int| #[trigger]
            self.acked(v, t, m) && m >= 0 && self.nodes.contains_key(v) ==> agree(
                self.nodes[v].log.entries,
                self.logs[t],
                m,
            ) || self.lost(t, m, self.nodes[v].term as int)
    }

    /// A voter had what it acknowledged when it voted in an election to come or in
    /// the winner's favour, unless a leader in between lost it.
    pub open spec fn inv_voters(self) -> bool {
        forall|v: u64, t: u64, m: int, w: u64|
            #![trigger self.acked(v, t, m), self.ballots.contains_key((v, w))]
            self.acked(v, t, m) && m >= 0 && self.ballots.contains_key((v, w)) && t < w && (
            self.elections.contains_key(w) ==> self.elections[w].voters.contains(v)) ==> agree(
                self.ballots[(v, w)].log,
                self.logs[t],
                m,
            ) || self.lost(t, m, w - 1)
    }

    /// What a node holds to be committed is.
    pub open spec fn inv_commits(self) -> bool {
        forall|i: u64| #[trigger]
            self.nodes.contains_key(i) ==> {
                let s = self.nodes[i];
                s.log.commit <= s.log.entries.len() && self.safe(
                    s.log.entries,
                    s.log.commit as int,
                    s.term,
                )
            }
    }

    /// The inductive invariant.
    pub open spec fn inv(self) -> bool {
        &&& self.inv_nodes()
        &&& self.inv_ballots()
        &&& self.inv_candidates()
        &&& self.inv_vote_messages()
        &&& self.inv_ballot_logs()
        &&& self.inv_elections()
        &&& self.inv_leaders()
        &&& self.inv_node_logs()
        &&& self.inv_append_messages()
        &&& self.inv_acks()
        &&& self.inv_voters()
        &&& self.inv_commits()
    }
}

// ---------------------------------------------------------------------------
// Basic lemmas
// ---------------------------------------------------------------------------

/// Any two quorums of a cluster share a node.
pub proof fn quorums_intersect(c: Cluster, a: Set<u64>, b: Set<u64>) -> (v: u64)
    requires
        c.peers.no_duplicates(),
        c.is_quorum(a),
        c.is_quorum(b),
    ensures
        a.contains(v),
        b.contains(v),
{
    let all = c.peers.to_set();
    c.peers.unique_seq_to_set();
    vstd::set_lib::lemma_set_intersect_union_lens(a, b);
    assert(a.union(b).subset_of(all));
    vstd::set_lib::lemma_len_subset(a.union(b), all);
    assert(a.intersect(b).len() > 0);
    let v = a.intersect(b).choose();
    assert(a.intersect(b).contains(v));
    v
}

/// A message to the others goes to each other member and to no one else.
proof fn to_others_members(s: NodeState, msg: spec_fn(u64) -> Message, e: Envelope)
    requires
        s.to_others(msg).to_set().contains(e),
    ensures
        s.is_other(e.to),
        e.msg == msg(e.to),
{
    let keep = |p: u64| p != s.id;
    let picked = s.peers.filter(keep);
    let out = s.to_others(msg);
    let k = choose|k: int| 0 <= k < out.len() && out[k] == e;
    assert(out[k] == (Envelope { to: picked[k], msg: msg(picked[k]) }));
    assert(picked.contains(picked[k]));
    s.peers.lemma_filter_contains_rev(keep, picked[k]);
    assert(keep(picked[k]));
}

// ---------------------------------------------------------------------------
// Facts that last
// ---------------------------------------------------------------------------

/// The history of `b` continues that of `a`.
spec fn grown(a: Cluster, b: Cluster) -> bool {
    &&& a.peers == b.peers
    &&& a.sent.subset_of(b.sent)
    &&& forall|v: u64, t: u64| #[trigger]
        a.ballots.contains_key((v, t)) ==> b.ballots.contains_key((v, t)) && b.ballots[(v, t)]
            == a.ballots[(v, t)]
    &&& forall|t: u64| #[trigger]
        a.elections.contains_key(t) ==> b.elections.contains_key(t) && b.elections[t]
            == a.elections[t]
    &&& forall|t: u64| #[trigger]
        a.logs.contains_key(t) ==> b.logs.contains_key(t) && agree(
            a.logs[t],
            b.logs[t],
            a.logs[t].len() as int,
        )
    &&& forall|i: u64| #[trigger] a.nodes.contains_key(i) <==> b.nodes.contains_key(i)
    &&& forall|i: u64| #[trigger]
        a.nodes.contains_key(i) ==> a.nodes[i].term <= b.nodes[i].term
}

/// The step from `a` to `b` keeps the invariant and the history.
spec fn keeps(a: Cluster, b: Cluster) -> bool {
    b.inv() && grown(a, b)
}

proof fn agree_trans(a: Seq<Entry>, b: Seq<Entry>, d: Seq<Entry>, m: int)
    requires
        agree(a, b, m),
        agree(b, d, m),
    ensures
        agree(a, d, m),
        agree(b, a, m),
{
    assert forall|k: int| 0 <= k < m implies a[k] == d[k] by {
        assert(a[k] == b[k]);
    }
}

proof fn agree_less(a: Seq<Entry>, b: Seq<Entry>, m: int, n: int)
    requires
        agree(a, b, m),
        0 <= n <= m,
    ensures
        agree(a, b, n),
        agree(b, a, n),
{
}

proof fn sound_grows(a: Cluster, b: Cluster, log: Seq<Entry>, x: u64, y: u64)
    requires
        grown(a, b),
        sound(a.logs, log, x),
        x <= y,
    ensures
        sound(b.logs, log, y),
{
    assert forall|k: int| 0 <= k < log.len() implies {
        let t = (#[trigger] log[k]).term;
        1 <= t <= y && b.logs.contains_key(t) && agree(log, b.logs[t], k + 1)
    } by {
        let t = log[k].term;
        assert(a.logs.contains_key(t));
        agree_less(a.logs[t], b.logs[t], a.logs[t].len() as int, k + 1);
        agree_trans(log, a.logs[t], b.logs[t], k + 1);
    }
}

/// An acknowledgement is about an elected leader's log and within it.
proof fn acked_bounds(c: Cluster, v: u64, t: u64, m: int)
    requires
        c.inv_elections(),
        c.inv_append_messages(),
        c.acked(v, t, m),
        m >= 0,
    ensures
        c.elections.contains_key(t),
        c.logs.contains_key(t),
        c.election_ok(t),
        m <= c.logs[t].len(),
        c.nodes.contains_key(v),
        t <= c.nodes[v].term,
{
    if exists|e: Envelope| #[trigger] c.sent.contains(e) && is_ack(e.msg, v, t, m) {
        let e = choose|e: Envelope| #[trigger] c.sent.contains(e) && is_ack(e.msg, v, t, m);
        assert(c.append_message_ok(e));
    }
    assert(c.election_ok(t));
}

proof fn acked_grows(a: Cluster, b: Cluster, v: u64, t: u64, m: int)
    requires
        grown(a, b),
        a.inv_elections(),
        a.acked(v, t, m),
    ensures
        b.acked(v, t, m),
{
    if exists|e: Envelope| #[trigger] a.sent.contains(e) && is_ack(e.msg, v, t, m) {
        let e = choose|e: Envelope| #[trigger] a.sent.contains(e) && is_ack(e.msg, v, t, m);
        assert(b.sent.contains(e));
    } else {
        assert(a.election_ok(t));
        assert(b.elections.contains_key(t));
    }
}

proof fn committed_grows(a: Cluster, b: Cluster, t: u64, m: int)
    requires
        grown(a, b),
        a.inv_elections(),
        a.committed(t, m),
    ensures
        b.committed(t, m),
{
    assert(a.election_ok(t));
    let q = choose|q: Set<u64>| #[trigger]
        a.is_quorum(q) && forall|v: u64| #[trigger] q.contains(v) ==> a.acked(v, t, m);
    assert(b.is_quorum(q));
    assert forall|v: u64| #[trigger] q.contains(v) implies b.acked(v, t, m) by {
        acked_grows(a, b, v, t, m);
    }
    assert(a.logs[t][m - 1] == b.logs[t][m - 1]);
}

proof fn lost_grows(a: Cluster, b: Cluster, t: u64, m: int, x: int, y: int)
    requires
        grown(a, b),
        a.inv_elections(),
        a.logs.contains_key(t),
        0 <= m <= a.logs[t].len(),
        a.lost(t, m, x),
        x <= y,
    ensures
        b.lost(t, m, y),
{
    let u = choose|u: u64|
        t < u <= x && #[trigger] a.elections.contains_key(u) && !agree(a.base(u), a.logs[t], m);
    assert(a.election_ok(u));
    assert(b.elections.contains_key(u));
    assert(a.base(u) == b.base(u)) by {
        assert(a.ballots.contains_key((a.elections[u].leader, u)));
    }
    if agree(b.base(u), b.logs[t], m) {
        agree_less(a.logs[t], b.logs[t], a.logs[t].len() as int, m);
        agree_trans(b.base(u), b.logs[t], a.logs[t], m);
    }
}

proof fn safe_grows(a: Cluster, b: Cluster, log: Seq<Entry>, k: int, x: u64, y: u64)
    requires
        grown(a, b),
        a.inv_elections(),
        a.safe(log, k, x),
        0 <= k,
        x <= y,
    ensures
        b.safe(log, k, y),
{
    if k > 0 {
        let (t, m) = choose|t: u64, m: int|
            t <= x && k <= m && #[trigger] a.committed(t, m) && agree(log, a.logs[t], k);
        committed_grows(a, b, t, m);
        assert(a.election_ok(t));
        agree_less(a.logs[t], b.logs[t], a.logs[t].len() as int, k);
        agree_trans(log, a.logs[t], b.logs[t], k);
        assert(b.committed(t, m));
    }
}

// ---------------------------------------------------------------------------
// What a step of one node owes
// ---------------------------------------------------------------------------

/// Whether the step casts a vote.
spec fn votes_anew(old: NodeState, s: NodeState) -> bool {
    s.voted_for is Some && (s.term != old.term || old.voted_for is None)
}

/// Conditions on the step of node `i` to state `s` that do not involve the
/// history after it.
spec fn step_local(c: Cluster, i: u64, s: NodeState, sends: Seq<Envelope>) -> bool {
    let old = c.nodes[i];
    &&& c.nodes.contains_key(i)
    &&& s.id == i
    &&& s.peers == c.peers
    &&& s.votes.finite()
    &&& forall|v: u64| #[trigger] s.votes.contains(v) ==> s.is_other(v)
    &&& s.term >= old.term
    &&& s.term == old.term && old.voted_for is Some ==> s.voted_for == old.voted_for
    &&& votes_anew(old, s) ==> s.role != Role::Leader && s.term >= 1
    &&& old.role == Role::Leader && s.role != Role::Leader ==> s.term > old.term
    &&& old.role == Role::Leader && s.role == Role::Leader ==> s.term == old.term && agree(
        old.log.entries,
        s.log.entries,
        old.log.entries.len() as int,
    )
    &&& s.role == Role::Leader && old.role != Role::Leader ==> !c.elections.contains_key(s.term)
    &&& forall|e: Envelope, v: u64, t: u64, m: int|
        #![trigger sends.to_set().contains(e), is_ack(e.msg, v, t, m)]
        sends.to_set().contains(e) && is_ack(e.msg, v, t, m) ==> v == i && t == s.term
}

/// Conditions on the cluster `d` that the step leads to.
spec fn step_global(d: Cluster, c: Cluster, i: u64, s: NodeState, sends: Seq<Envelope>) -> bool {
    let old = c.nodes[i];
    &&& s.role == Role::Candidate ==> {
        &&& s.voted_for == Some(i)
        &&& d.ballots[(i, s.term)].log == s.log.entries
        &&& forall|v: u64| #[trigger]
            s.votes.contains(v) ==> d.ballots.contains_key((v, s.term)) && d.ballots[(
                v,
                s.term,
            )].candidate == i
    }
    &&& forall|e: Envelope| #[trigger]
        sends.to_set().contains(e) ==> d.vote_message_ok(e) && d.append_message_ok(e)
    &&& votes_anew(old, s) ==> d.ballot_ok(i, s.term)
    &&& s.role == Role::Leader ==> d.election_ok(s.term) && d.leader_ok(i)
    &&& sound(d.logs, s.log.entries, s.term)
    &&& forall|t: u64, m: int| #[trigger]
        d.acked(i, t, m) && m >= 0 ==> agree(s.log.entries, d.logs[t], m) || d.lost(
            t,
            m,
            s.term as int,
        )
    &&& s.log.commit <= s.log.entries.len()
    &&& d.safe(s.log.entries, s.log.commit as int, s.term)
}

proof fn step_grows(c: Cluster, i: u64, s: NodeState, sends: Seq<Envelope>)
    requires
        c.inv(),
        step_local(c, i, s, sends),
    ensures
        grown(c, c.updated(i, s, sends)),
        votes_anew(c.nodes[i], s) ==> !c.ballots.contains_key((i, s.term)),
{
    let d = c.updated(i, s, sends);
    let old = c.nodes[i];
    if s.role == Role::Leader {
        if old.role == Role::Leader {
            assert(c.leader_ok(i));
        } else {
            assert(!c.logs.contains_key(s.term));
        }
    }
    assert forall|t: u64| #[trigger] c.logs.contains_key(t) implies d.logs.contains_key(t) && agree(
        c.logs[t],
        d.logs[t],
        c.logs[t].len() as int,
    ) by {
    }
}

proof fn keep_nodes(c: Cluster, i: u64, s: NodeState, sends: Seq<Envelope>)
    requires
        c.inv(),
        step_local(c, i, s, sends),
    ensures
        c.updated(i, s, sends).inv_nodes(),
{
}

proof fn keep_ballots(c: Cluster, i: u64, s: NodeState, sends: Seq<Envelope>)
    requires
        c.inv(),
        step_local(c, i, s, sends),
    ensures
        c.updated(i, s, sends).inv_ballots(),
{
    step_grows(c, i, s, sends);
    let d = c.updated(i, s, sends);
    let old = c.nodes[i];
    assert forall|v: u64, t: u64| #[trigger] d.ballots.contains_key((v, t)) implies {
        &&& d.nodes.contains_key(v)
        &&& 1 <= t <= d.nodes[v].term
        &&& t == d.nodes[v].term ==> d.nodes[v].voted_for == Some(d.ballots[(v, t)].candidate)
    } by {
        if votes_anew(old, s) && v == i && t == s.term {
        } else {
            assert(c.ballots.contains_key((v, t)));
        }
    }
}

proof fn keep_candidates(c: Cluster, i: u64, s: NodeState, sends: Seq<Envelope>)
    requires
        c.inv(),
        step_local(c, i, s, sends),
        step_global(c.updated(i, s, sends), c, i, s, sends),
    ensures
        c.updated(i, s, sends).inv_candidates(),
{
    step_grows(c, i, s, sends);
    let d = c.updated(i, s, sends);
    assert forall|j: u64| #[trigger] d.nodes.contains_key(j) && d.nodes[j].role
        == Role::Candidate implies {
        let n = d.nodes[j];
        &&& n.voted_for == Some(j)
        &&& d.ballots[(j, n.term)].log == n.log.entries
        &&& forall|v: u64| #[trigger]
            n.votes.contains(v) ==> d.ballots.contains_key((v, n.term)) && d.ballots[(
                v,
                n.term,
            )].candidate == j
    } by {
        if j != i {
            let n = c.nodes[j];
            assert(c.nodes.contains_key(j));
            assert(c.ballots.contains_key((j, n.term)));
            assert forall|v: u64| #[trigger] n.votes.contains(v) implies d.ballots.contains_key(
                (v, n.term),
            ) && d.ballots[(v, n.term)].candidate == j by {
                assert(c.ballots.contains_key((v, n.term)));
            }
        }
    }
}

proof fn keep_messages(c: Cluster, i: u64, s: NodeState, sends: Seq<Envelope>)
    requires
        c.inv(),
        step_local(c, i, s, sends),
        step_global(c.updated(i, s, sends), c, i, s, sends),
    ensures
        c.updated(i, s, sends).inv_vote_messages(),
        c.updated(i, s, sends).inv_append_messages(),
{
    step_grows(c, i, s, sends);
    let d = c.updated(i, s, sends);
    assert forall|e: Envelope| #[trigger] d.sent.contains(e) implies d.vote_message_ok(e) by {
        if c.sent.contains(e) {
            assert(c.vote_message_ok(e));
        } else {
            assert(sends.to_set().contains(e));
        }
    }
    assert forall|e: Envelope| #[trigger] d.sent.contains(e) implies d.append_message_ok(e) by {
        if c.sent.contains(e) {
            assert(c.append_message_ok(e));
            match e.msg {
                Message::AppendEntries {
                    term,
                    leader_id,
                    prev_log_index,
                    prev_log_term,
                    entries,
                    leader_commit,
                } => {
                    assert(c.election_ok(term));
                    let a = c.logs[term];
                    let b = d.logs[term];
                    assert(agree(a, b, a.len() as int));
                    assert forall|k: int| 0 <= k < entries.len() implies #[trigger] entries[k]
                        == b[prev_log_index + k] by {
                        assert(entries[k] == a[prev_log_index + k]);
                    }
                    if prev_log_index > 0 {
                        assert(a[prev_log_index - 1] == b[prev_log_index - 1]);
                    }
                    safe_grows(c, d, a, leader_commit as int, term, term);
                    if leader_commit > 0 {
                        let k = leader_commit as int;
                        let (t, m) = choose|t: u64, m: int|
                            t <= term && k <= m && #[trigger] d.committed(t, m) && agree(
                                a,
                                d.logs[t],
                                k,
                            );
                        agree_less(a, b, a.len() as int, k);
                        agree_trans(b, a, d.logs[t], k);
                        assert(d.committed(t, m));
                    }
                },
                Message::AppendEntriesResponse { term, success, match_index, from } => {
                    if success {
                        assert(c.election_ok(term));
                        assert(agree(c.logs[term], d.logs[term], c.logs[term].len() as int));
                    }
                },
                _ => {},
            }
        } else {
            assert(sends.to_set().contains(e));
        }
    }
}

proof fn keep_ballot_logs(c: Cluster, i: u64, s: NodeState, sends: Seq<Envelope>)
    requires
        c.inv(),
        step_local(c, i, s, sends),
        step_global(c.updated(i, s, sends), c, i, s, sends),
    ensures
        c.updated(i, s, sends).inv_ballot_logs(),
{
    step_grows(c, i, s, sends);
    let d = c.updated(i, s, sends);
    assert forall|v: u64, t: u64| #[trigger] d.ballots.contains_key((v, t)) implies d.ballot_ok(
        v,
        t,
    ) by {
        if c.ballots.contains_key((v, t)) {
            assert(c.ballot_ok(v, t));
            let b = c.ballots[(v, t)];
            assert(c.ballots.contains_key((b.candidate, t)));
            sound_grows(c, d, b.log, t, t);
        }
    }
}

proof fn keep_elections(c: Cluster, i: u64, s: NodeState, sends: Seq<Envelope>)
    requires
        c.inv(),
        step_local(c, i, s, sends),
        step_global(c.updated(i, s, sends), c, i, s, sends),
    ensures
        c.updated(i, s, sends).inv_elections(),
{
    step_grows(c, i, s, sends);
    let d = c.updated(i, s, sends);
    let old = c.nodes[i];
    if old.role == Role::Leader {
        assert(c.leader_ok(i));
    }
    assert forall|t: u64| #[trigger] d.elections.contains_key(t) implies d.election_ok(t) by {
        if s.role == Role::Leader && t == s.term {
        } else {
            assert(c.elections.contains_key(t));
            assert(c.election_ok(t));
            let el = c.elections[t];
            assert(d.elections[t] == el);
            assert(d.logs[t] == c.logs[t]);
            sound_grows(c, d, c.logs[t], t, t);
            assert(d.base(t) == c.base(t)) by {
                assert(c.ballots.contains_key((el.leader, t)));
            }
            assert(d.is_quorum(el.voters));
            assert forall|v: u64| #[trigger] el.voters.contains(v) implies d.ballots.contains_key(
                (v, t),
            ) && d.ballots[(v, t)].candidate == el.leader by {
                assert(c.ballots.contains_key((v, t)));
            }
        }
    }
    assert forall|t: u64| #[trigger] d.logs.contains_key(t) implies d.elections.contains_key(t) by {
        if s.role == Role::Leader && t == s.term {
        } else {
            assert(c.logs.contains_key(t));
        }
    }
}

proof fn keep_leaders(c: Cluster, i: u64, s: NodeState, sends: Seq<Envelope>)
    requires
        c.inv(),
        step_local(c, i, s, sends),
        step_global(c.updated(i, s, sends), c, i, s, sends),
    ensures
        c.updated(i, s, sends).inv_leaders(),
{
    step_grows(c, i, s, sends);
    let d = c.updated(i, s, sends);
    assert forall|j: u64| #[trigger] d.nodes.contains_key(j) && d.nodes[j].role
        == Role::Leader implies d.leader_ok(j) by {
        if j != i {
            assert(c.nodes.contains_key(j));
            assert(c.leader_ok(j));
            let n = c.nodes[j];
            if s.role == Role::Leader && s.term == n.term {
                if c.nodes[i].role == Role::Leader {
                    assert(c.leader_ok(i));
                }
                assert(false);
            }
            assert(d.logs[n.term] == c.logs[n.term]);
            assert forall|p: u64| #[trigger] n.match_index.contains_key(p) implies n.match_index[p]
                <= n.log.entries.len() && (n.match_index[p] > 0 ==> d.acked(
                p,
                n.term,
                n.match_index[p] as int,
            )) by {
                if n.match_index[p] > 0 {
                    acked_grows(c, d, p, n.term, n.match_index[p] as int);
                }
            }
        }
    }
}

proof fn keep_node_logs(c: Cluster, i: u64, s: NodeState, sends: Seq<Envelope>)
    requires
        c.inv(),
        step_local(c, i, s, sends),
        step_global(c.updated(i, s, sends), c, i, s, sends),
    ensures
        c.updated(i, s, sends).inv_node_logs(),
{
    step_grows(c, i, s, sends);
    let d = c.updated(i, s, sends);
    assert forall|j: u64| #[trigger] d.nodes.contains_key(j) implies sound(
        d.logs,
        d.nodes[j].log.entries,
        d.nodes[j].term,
    ) by {
        if j != i {
            assert(c.nodes.contains_key(j));
            sound_grows(c, d, c.nodes[j].log.entries, c.nodes[j].term, c.nodes[j].term);
        }
    }
}

/// An acknowledgement that the step adds is by the stepping node, in its term.
proof fn acked_before(c: Cluster, i: u64, s: NodeState, sends: Seq<Envelope>, v: u64, t: u64, m: int)
    requires
        c.inv(),
        step_local(c, i, s, sends),
        c.updated(i, s, sends).acked(v, t, m),
        v != i || t != s.term,
    ensures
        c.acked(v, t, m),
{
    let d = c.updated(i, s, sends);
    if exists|e: Envelope| #[trigger] d.sent.contains(e) && is_ack(e.msg, v, t, m) {
        let e = choose|e: Envelope| #[trigger] d.sent.contains(e) && is_ack(e.msg, v, t, m);
        if !c.sent.contains(e) {
            assert(sends.to_set().contains(e));
        }
        assert(c.sent.contains(e));
    } else {
        if c.nodes[i].role == Role::Leader {
            assert(c.leader_ok(i));
        }
        assert(c.elections.contains_key(t));
        assert(d.logs[t] == c.logs[t]);
    }
}

proof fn keep_acks(c: Cluster, i: u64, s: NodeState, sends: Seq<Envelope>)
    requires
        c.inv(),
        step_local(c, i, s, sends),
        step_global(c.updated(i, s, sends), c, i, s, sends),
    ensures
        c.updated(i, s, sends).inv_acks(),
{
    step_grows(c, i, s, sends);
    let d = c.updated(i, s, sends);
    assert forall|v: u64, t: u64, m: int| #[trigger]
        d.acked(v, t, m) && m >= 0 && d.nodes.contains_key(v) implies agree(
        d.nodes[v].log.entries,
        d.logs[t],
        m,
    ) || d.lost(t, m, d.nodes[v].term as int) by {
        if v != i {
            acked_before(c, i, s, sends, v, t, m);
            acked_bounds(c, v, t, m);
            let n = c.nodes[v];
            if agree(n.log.entries, c.logs[t], m) {
                agree_less(c.logs[t], d.logs[t], c.logs[t].len() as int, m);
                agree_trans(n.log.entries, c.logs[t], d.logs[t], m);
            } else {
                lost_grows(c, d, t, m, n.term as int, n.term as int);
            }
        }
    }
}

proof fn keep_voters(c: Cluster, i: u64, s: NodeState, sends: Seq<Envelope>)
    requires
        c.inv(),
        step_local(c, i, s, sends),
        step_global(c.updated(i, s, sends), c, i, s, sends),
    ensures
        c.updated(i, s, sends).inv_voters(),
{
    step_grows(c, i, s, sends);
    let d = c.updated(i, s, sends);
    let old = c.nodes[i];
    assert forall|v: u64, t: u64, m: int, w: u64|
        #![trigger d.acked(v, t, m), d.ballots.contains_key((v, w))]
        d.acked(v, t, m) && m >= 0 && d.ballots.contains_key((v, w)) && t < w && (
        d.elections.contains_key(w) ==> d.elections[w].voters.contains(v)) implies agree(
        d.ballots[(v, w)].log,
        d.logs[t],
        m,
    ) || d.lost(t, m, w - 1) by {
        if votes_anew(old, s) && v == i && w == s.term {
            assert(d.ballots[(v, w)].log == s.log.entries);
            if d.elections.contains_key(w) {
                assert(c.elections.contains_key(w));
                assert(c.election_ok(w));
                assert(c.ballots.contains_key((i, w)));
                assert(false);
            }
            if !agree(s.log.entries, d.logs[t], m) {
                assert(d.lost(t, m, s.term as int));
                let u = choose|u: u64|
                    t < u <= s.term && #[trigger] d.elections.contains_key(u) && !agree(
                        d.base(u),
                        d.logs[t],
                        m,
                    );
                assert(u != w);
                assert(d.elections.contains_key(u));
            }
        } else {
            assert(c.ballots.contains_key((v, w)));
            if v == i && t == s.term {
                assert(w <= old.term);
                assert(false);
            }
            acked_before(c, i, s, sends, v, t, m);
            acked_bounds(c, v, t, m);
            let log = c.ballots[(v, w)].log;
            if agree(log, c.logs[t], m) {
                agree_less(c.logs[t], d.logs[t], c.logs[t].len() as int, m);
                agree_trans(log, c.logs[t], d.logs[t], m);
            } else {
                if c.elections.contains_key(w) {
                    assert(d.elections[w] == c.elections[w]);
                }
                assert(c.lost(t, m, w - 1));
                lost_grows(c, d, t, m, w - 1, w - 1);
            }
        }
    }
}

proof fn keep_commits(c: Cluster, i: u64, s: NodeState, sends: Seq<Envelope>)
    requires
        c.inv(),
        step_local(c, i, s, sends),
        step_global(c.updated(i, s, sends), c, i, s, sends),
    ensures
        c.updated(i, s, sends).inv_commits(),
{
    step_grows(c, i, s, sends);
    let d = c.updated(i, s, sends);
    assert forall|j: u64| #[trigger] d.nodes.contains_key(j) implies {
        let n = d.nodes[j];
        n.log.commit <= n.log.entries.len() && d.safe(n.log.entries, n.log.commit as int, n.term)
    } by {
        if j != i {
            assert(c.nodes.contains_key(j));
            let n = c.nodes[j];
            safe_grows(c, d, n.log.entries, n.log.commit as int, n.term, n.term);
        }
    }
}

/// A step that meets its obligations keeps the invariant.
proof fn step_keeps(c: Cluster, i: u64, s: NodeState, sends: Seq<Envelope>)
    requires
        c.inv(),
        step_local(c, i, s, sends),
        step_global(c.updated(i, s, sends), c, i, s, sends),
    ensures
        keeps(c, c.updated(i, s, sends)),
{
    step_grows(c, i, s, sends);
    keep_nodes(c, i, s, sends);
    keep_ballots(c, i, s, sends);
    keep_candidates(c, i, s, sends);
    keep_messages(c, i, s, sends);
    keep_ballot_logs(c, i, s, sends);
    keep_elections(c, i, s, sends);
    keep_leaders(c, i, s, sends);
    keep_node_logs(c, i, s, sends);
    keep_acks(c, i, s, sends);
    keep_voters(c, i, s, sends);
    keep_commits(c, i, s, sends);
}

// ---------------------------------------------------------------------------
// What is committed stays
// ---------------------------------------------------------------------------

/// In sound logs, the same term at a position means the same entries up to it.
proof fn sound_match(c: Cluster, a: Seq<Entry>, x: u64, b: Seq<Entry>, y: u64, k: int)
    requires
        sound(c.logs, a, x),
        sound(c.logs, b, y),
        0 <= k < a.len(),
        k < b.len(),
        a[k].term == b[k].term,
    ensures
        agree(a, b, k + 1),
{
    let t = a[k].term;
    agree_trans(b, c.logs[t], b, k + 1);
    agree_trans(a, c.logs[t], b, k + 1);
}

/// A leader elected after a commit has the committed entries.
proof fn completeness(c: Cluster, t: u64, m: int, w: u64)
    requires
        c.inv(),
        c.committed(t, m),
        c.elections.contains_key(w),
        t < w,
    ensures
        agree(c.base(w), c.logs[t], m),
        agree(c.logs[w], c.logs[t], m),
    decreases w,
{
    assert(c.election_ok(t));
    assert(c.election_ok(w));
    let el = c.elections[w];
    let q = choose|q: Set<u64>| #[trigger]
        c.is_quorum(q) && forall|v: u64| #[trigger] q.contains(v) ==> c.acked(v, t, m);
    let v = quorums_intersect(c, q, el.voters);
    assert(c.acked(v, t, m));
    assert(c.ballots.contains_key((v, w)));
    let vlog = c.ballots[(v, w)].log;
    let base = c.base(w);
    assert(c.ballot_ok(v, w));
    assert(c.ballots.contains_key((el.leader, w)));
    assert(c.ballot_ok(el.leader, w));
    if !agree(vlog, c.logs[t], m) {
        assert(c.lost(t, m, w - 1));
        let u = choose|u: u64|
            t < u <= w - 1 && #[trigger] c.elections.contains_key(u) && !agree(
                c.base(u),
                c.logs[t],
                m,
            );
        completeness(c, t, m, u);
        assert(false);
    }
    assert(vlog[m - 1] == c.logs[t][m - 1]);
    let vlast = vlog.len() - 1;
    assert(vlog[m - 1].term <= vlog[vlast].term);
    contiguous_lookup_len(base);
    contiguous_lookup_len(vlog);
    assert(base.len() > 0);
    let blast = base.len() - 1;
    let x = base[blast].term;
    if x == vlog[vlast].term {
        assert(base.len() >= vlog.len());
        sound_match_at(c, base, w, blast, vlog, w, vlast);
        agree_less(base, vlog, vlog.len() as int, m);
        agree_trans(base, vlog, c.logs[t], m);
    } else {
        assert(t < x < w);
        assert(c.elections.contains_key(x));
        completeness(c, t, m, x);
        assert(c.election_ok(x));
        let lx = c.logs[x];
        assert(agree(base, lx, blast + 1));
        assert(lx[blast].term == x);
        assert(lx[m - 1] == c.logs[t][m - 1]);
        if blast <= m - 1 {
            assert(lx[blast].term <= lx[m - 1].term);
        }
        agree_less(base, lx, blast + 1, m);
        agree_trans(base, lx, c.logs[t], m);
    }
    agree_less(base, c.logs[w], base.len() as int, m);
    agree_trans(c.logs[w], base, c.logs[t], m);
}

proof fn contiguous_lookup_len(log: Seq<Entry>)
    requires
        contiguous(log),
    ensures
        last_index(log) == log.len(),
{
    if log.len() > 0 {
        assert(log[log.len() - 1].index == log.len());
    }
}

/// The shorter of two sound logs whose entries at two positions have the same
/// term is a prefix of the other, as far as its position reaches.
proof fn sound_match_at(
    c: Cluster,
    a: Seq<Entry>,
    x: u64,
    j: int,
    b: Seq<Entry>,
    y: u64,
    k: int,
)
    requires
        sound(c.logs, a, x),
        sound(c.logs, b, y),
        0 <= k <= j < a.len(),
        k < b.len(),
        a[j].term == b[k].term,
    ensures
        agree(a, b, k + 1),
{
    let t = a[j].term;
    let l = c.logs[t];
    assert(agree(a, l, j + 1));
    assert(agree(b, l, k + 1));
    agree_less(a, l, j + 1, k + 1);
    agree_trans(b, l, b, k + 1);
    agree_trans(a, l, b, k + 1);
}

/// What is safe in a term up to `x` is in the log of a leader of a term not
/// before `x`.
proof fn safe_in_leader(c: Cluster, log: Seq<Entry>, k: int, x: u64, w: u64)
    requires
        c.inv(),
        c.safe(log, k, x),
        0 <= k <= log.len(),
        x <= w,
        c.elections.contains_key(w),
    ensures
        agree(log, c.logs[w], k),
{
    if k > 0 {
        let (t, m) = choose|t: u64, m: int|
            t <= x && k <= m && #[trigger] c.committed(t, m) && agree(log, c.logs[t], k);
        if t < w {
            completeness(c, t, m, w);
            agree_less(c.logs[w], c.logs[t], m, k);
            agree_trans(log, c.logs[t], c.logs[w], k);
        }
    }
}

// ---------------------------------------------------------------------------
// Steps that leave the log alone
// ---------------------------------------------------------------------------

/// No message of a kind that the others rely on.
spec fn harmless(sends: Seq<Envelope>) -> bool {
    forall|e: Envelope| #[trigger]
        sends.to_set().contains(e) ==> match e.msg {
            Message::RequestVote { .. } => false,
            Message::RequestVoteResponse { vote_granted, .. } => !vote_granted,
            Message::AppendEntries { .. } => false,
            Message::AppendEntriesResponse { success, .. } => !success,
            _ => true,
        }
}

/// A step without new acknowledgements, log entries or commits keeps what the
/// node has promised.
proof fn same_log(c: Cluster, i: u64, s: NodeState, sends: Seq<Envelope>)
    requires
        c.inv(),
        step_local(c, i, s, sends),
        s.log == c.nodes[i].log,
        forall|e: Envelope, v: u64, t: u64, m: int|
            #![trigger sends.to_set().contains(e), is_ack(e.msg, v, t, m)]
            sends.to_set().contains(e) ==> !is_ack(e.msg, v, t, m),
    ensures
        ({
            let d = c.updated(i, s, sends);
            &&& sound(d.logs, s.log.entries, s.term)
            &&& forall|t: u64, m: int| #[trigger]
                d.acked(i, t, m) && m >= 0 ==> agree(s.log.entries, d.logs[t], m) || d.lost(
                    t,
                    m,
                    s.term as int,
                )
            &&& s.log.commit <= s.log.entries.len()
            &&& d.safe(s.log.entries, s.log.commit as int, s.term)
        }),
{
    step_grows(c, i, s, sends);
    let d = c.updated(i, s, sends);
    let old = c.nodes[i];
    sound_grows(c, d, s.log.entries, old.term, s.term);
    safe_grows(c, d, s.log.entries, s.log.commit as int, old.term, s.term);
    assert forall|t: u64, m: int| #[trigger] d.acked(i, t, m) && m >= 0 implies agree(
        s.log.entries,
        d.logs[t],
        m,
    ) || d.lost(t, m, s.term as int) by {
        if s.role == Role::Leader && t == s.term && 0 <= m <= d.logs[t].len() {
            assert(d.logs[t] == s.log.entries);
        } else {
            if exists|e: Envelope| #[trigger] d.sent.contains(e) && is_ack(e.msg, i, t, m) {
                let e = choose|e: Envelope| #[trigger]
                    d.sent.contains(e) && is_ack(e.msg, i, t, m);
                if !c.sent.contains(e) {
                    assert(sends.to_set().contains(e));
                }
                assert(c.sent.contains(e));
            } else {
                assert(c.elections.contains_key(t));
                if old.role == Role::Leader {
                    assert(c.leader_ok(i));
                }
                assert(d.logs[t] == c.logs[t]);
            }
            assert(c.acked(i, t, m));
            acked_bounds(c, i, t, m);
            if agree(s.log.entries, c.logs[t], m) {
                agree_less(c.logs[t], d.logs[t], c.logs[t].len() as int, m);
                agree_trans(s.log.entries, c.logs[t], d.logs[t], m);
            } else {
                lost_grows(c, d, t, m, old.term as int, s.term as int);
            }
        }
    }
}

/// A step that touches neither term, vote nor log and sends nothing that matters.
proof fn quiet_step(c: Cluster, i: u64, s: NodeState, sends: Seq<Envelope>)
    requires
        c.inv(),
        c.nodes.contains_key(i),
        harmless(sends),
        ({
            let old = c.nodes[i];
            &&& s.id == old.id
            &&& s.peers == old.peers
            &&& s.term == old.term
            &&& s.voted_for == old.voted_for
            &&& s.log == old.log
            &&& s.votes.finite()
            &&& forall|v: u64| #[trigger] s.votes.contains(v) ==> s.is_other(v)
            &&& s.role == old.role || (s.role == Role::Follower && old.role != Role::Leader)
            &&& s.role == Role::Candidate ==> forall|v: u64| #[trigger]
                s.votes.contains(v) ==> c.ballots.contains_key((v, s.term)) && c.ballots[(
                    v,
                    s.term,
                )].candidate == i
            &&& s.role == Role::Leader ==> s.match_index == old.match_index && forall|p: u64|
             #[trigger]
                s.next_index.contains_key(p) ==> 1 <= s.next_index[p] <= s.log.entries.len() + 1
        }),
    ensures
        keeps(c, c.updated(i, s, sends)),
{
    let old = c.nodes[i];
    let d = c.updated(i, s, sends);
    assert(step_local(c, i, s, sends));
    same_log(c, i, s, sends);
    step_grows(c, i, s, sends);
    if s.role == Role::Leader {
        assert(c.leader_ok(i));
        assert(c.election_ok(s.term));
        assert(d.logs =~= c.logs);
        assert(d.election_ok(s.term)) by {
            assert(d.base(s.term) == c.base(s.term));
            assert(d.is_quorum(d.elections[s.term].voters));
        }
        assert forall|p: u64| #[trigger] s.match_index.contains_key(p) implies s.match_index[p]
            <= s.log.entries.len() && (s.match_index[p] > 0 ==> d.acked(
            p,
            s.term,
            s.match_index[p] as int,
        )) by {
            if s.match_index[p] > 0 {
                acked_grows(c, d, p, s.term, s.match_index[p] as int);
            }
        }
        assert(d.leader_ok(i));
    }
    assert(step_global(d, c, i, s, sends));
    step_keeps(c, i, s, sends);
}

/// Stepping down to a higher term.
proof fn step_down_step(c: Cluster, i: u64, remote: u64)
    requires
        c.inv(),
        c.nodes.contains_key(i),
    ensures
        keeps(c, c.updated(i, c.nodes[i].step_down(remote), Seq::empty())),
{
    let old = c.nodes[i];
    let s = old.step_down(remote);
    let none = Seq::<Envelope>::empty();
    assert(none.to_set() =~= Set::empty());
    if remote > old.term {
        assert(step_local(c, i, s, none));
        same_log(c, i, s, none);
        assert(step_global(c.updated(i, s, none), c, i, s, none));
        step_keeps(c, i, s, none);
    } else {
        if old.role == Role::Leader {
            assert(c.leader_ok(i));
        }
        quiet_step(c, i, s, none);
    }
}

// ---------------------------------------------------------------------------
// Elections
// ---------------------------------------------------------------------------

proof fn single_member(e: Envelope, x: Envelope)
    ensures
        seq![e].to_set().contains(x) <==> x == e,
{
    if seq![e].to_set().contains(x) {
        let k = choose|k: int| 0 <= k < seq![e].len() && seq![e][k] == x;
        assert(seq![e][k] == e);
    }
    assert(seq![e][0] == e);
    assert(seq![e].contains(e));
}

/// Answering a vote request of a term not above the node's.
proof fn vote_step(c: Cluster, i: u64, term: u64, candidate: u64, index: u64, log_term: u64)
    requires
        c.inv(),
        c.nodes.contains_key(i),
        term <= c.nodes[i].term,
        c.sent.contains(
            Envelope {
                to: i,
                msg: Message::RequestVote {
                    term,
                    candidate_id: candidate,
                    last_log_index: index,
                    last_log_term: log_term,
                },
            },
        ),
    ensures
        ({
            let r = c.nodes[i].on_request_vote(term, candidate, index, log_term);
            keeps(c, c.updated(i, r.state, r.sends))
        }),
{
    let old = c.nodes[i];
    let r = old.on_request_vote(term, candidate, index, log_term);
    let s = r.state;
    let sends = r.sends;
    let d = c.updated(i, s, sends);
    let request = Envelope {
        to: i,
        msg: Message::RequestVote {
            term,
            candidate_id: candidate,
            last_log_index: index,
            last_log_term: log_term,
        },
    };
    assert(c.vote_message_ok(request));
    let answer = sends[0];
    assert forall|e: Envelope| #[trigger] sends.to_set().contains(e) implies e == answer by {
        single_member(answer, e);
    }
    if old.role == Role::Leader {
        assert(c.leader_ok(i));
    }
    if old.grants_vote(term, candidate, index, log_term) {
        assert(step_local(c, i, s, sends));
        same_log(c, i, s, sends);
        step_grows(c, i, s, sends);
        assert(d.vote_message_ok(answer) && d.append_message_ok(answer)) by {
            if votes_anew(old, s) {
            } else {
                assert(c.ballots.contains_key((i, term)));
            }
        }
        if votes_anew(old, s) {
            assert(c.ballots.contains_key((candidate, term)));
            assert(d.ballot_ok(i, term));
        }
        assert(step_global(d, c, i, s, sends));
        step_keeps(c, i, s, sends);
    } else {
        quiet_step(c, i, s, sends);
    }
}

/// Entering the next term as a candidate, from a state that differs from the node's
/// only in the pre-votes collected.
proof fn candidacy_step(c: Cluster, i: u64, from: NodeState)
    requires
        c.inv(),
        c.nodes.contains_key(i),
        c.nodes[i].role != Role::Leader,
        c.nodes[i].term < u64::MAX,
        from == (NodeState { pre_votes: from.pre_votes, ..c.nodes[i] }),
    ensures
        keeps(c, c.updated(i, from.candidacy(), from.vote_requests())),
{
    let old = c.nodes[i];
    let s = from.candidacy();
    let sends = from.vote_requests();
    let d = c.updated(i, s, sends);
    let log = s.log.entries;
    let ask = Message::RequestVote {
        term: s.term,
        candidate_id: i,
        last_log_index: last_index(log),
        last_log_term: last_term(log),
    };
    let mk = |p: u64| ask;
    assert(sends == from.to_others(mk));
    assert forall|e: Envelope| #[trigger] sends.to_set().contains(e) implies from.is_other(e.to)
        && e.msg == ask by {
        to_others_members(from, mk, e);
    }
    assert(step_local(c, i, s, sends));
    same_log(c, i, s, sends);
    step_grows(c, i, s, sends);
    assert(d.ballots.contains_key((i, s.term)));
    assert(d.ballots[(i, s.term)] == (Ballot { candidate: i, log }));
    assert(d.ballot_ok(i, s.term)) by {
        assert forall|k: int| 0 <= k < log.len() implies (#[trigger] log[k]).term < s.term by {
            assert(sound(c.logs, log, old.term));
        }
    }
    assert forall|e: Envelope| #[trigger]
        sends.to_set().contains(e) implies d.vote_message_ok(e) && d.append_message_ok(e) by {
        assert(from.is_other(e.to));
    }
    assert(step_global(d, c, i, s, sends));
    step_keeps(c, i, s, sends);
}

/// The replication messages of a leader are what they should be.
proof fn heartbeats_ok(d: Cluster, i: u64, s: NodeState, e: Envelope)
    requires
        s.id == i,
        d.elections.contains_key(s.term),
        d.elections[s.term].leader == i,
        d.logs[s.term] == s.log.entries,
        contiguous(s.log.entries),
        forall|p: u64| #[trigger]
            s.next_index.contains_key(p) ==> 1 <= s.next_index[p] <= s.log.entries.len() + 1,
        s.log.commit <= s.log.entries.len(),
        d.safe(s.log.entries, s.log.commit as int, s.term),
        s.heartbeats().to_set().contains(e),
    ensures
        d.vote_message_ok(e),
        d.append_message_ok(e),
        e.msg is AppendEntries,
{
    let mk = |p: u64| s.append_message(p);
    assert(s.heartbeats() == s.to_others(mk));
    to_others_members(s, mk, e);
    let p = e.to;
    let log = s.log.entries;
    contiguous_lookup_len(log);
    let next: u64 = if s.next_index.contains_key(p) { s.next_index[p] } else { 1 };
    let prev: u64 = (next - 1) as u64;
    crate::raft::log::contiguous_lookup(log, prev);
    let last = log.len() as int;
    let end = if next + s.max_batch - 1 < last { next + s.max_batch - 1 } else { last };
    let entries = range(log, next as int, end);
    if log.len() > 0 {
        assert(log[0].index == 1);
        if prev < end {
            assert(entries =~= log.subrange(prev as int, end));
        } else {
            assert(entries =~= Seq::empty());
        }
    }
    assert(e.msg == s.append_message(p));
}

/// Winning an election with the votes of others that make up a quorum with the
/// candidate's own.
proof fn win_step(c: Cluster, i: u64, votes: Set<u64>)
    requires
        c.inv(),
        c.nodes.contains_key(i),
        c.nodes[i].role == Role::Candidate,
        last_index(c.nodes[i].log.entries) < u64::MAX,
        votes.finite(),
        forall|v: u64| #[trigger]
            votes.contains(v) ==> c.nodes[i].is_other(v) && c.ballots.contains_key(
                (v, c.nodes[i].term),
            ) && c.ballots[(v, c.nodes[i].term)].candidate == i,
        votes.len() + 1 >= c.nodes[i].quorum(),
    ensures
        ({
            let r = NodeState { votes, ..c.nodes[i] }.become_leader();
            keeps(c, c.updated(i, r.state, r.sends))
        }),
{
    let old = c.nodes[i];
    let mid = NodeState { votes, ..old };
    let r = mid.become_leader();
    let s = r.state;
    let sends = r.sends;
    let d = c.updated(i, s, sends);
    let t = s.term;
    let log = s.log.entries;
    let voters = s.votes.insert(i);
    assert(sound(c.logs, log, t));
    contiguous_lookup_len(log);
    assert(c.is_quorum(voters)) by {
        assert(!s.votes.contains(i));
        assert(voters.len() == s.votes.len() + 1);
        assert forall|v: u64| #[trigger] voters.contains(v) implies c.peers.to_set().contains(
            v,
        ) by {
            if v != i {
                assert(s.votes.contains(v));
            }
        }
    }
    assert(c.ballots.contains_key((i, t)));
    assert forall|v: u64| #[trigger] voters.contains(v) implies c.ballots.contains_key((v, t))
        && c.ballots[(v, t)].candidate == i by {
        if v != i {
            assert(votes.contains(v));
        }
    }
    if c.elections.contains_key(t) {
        assert(c.election_ok(t));
        let v = quorums_intersect(c, voters, c.elections[t].voters);
        assert(c.ballots[(v, t)].candidate == i);
        assert(false);
    }
    assert forall|e: Envelope| #[trigger] sends.to_set().contains(e) implies e.msg is AppendEntries
        by {
        let mk = |p: u64| s.append_message(p);
        assert(s.heartbeats() == s.to_others(mk));
        to_others_members(s, mk, e);
    }
    assert(step_local(c, i, s, sends));
    same_log(c, i, s, sends);
    step_grows(c, i, s, sends);
    assert(d.base(t) == log);
    assert(d.election_ok(t));
    assert(d.leader_ok(i));
    assert forall|e: Envelope| #[trigger]
        sends.to_set().contains(e) implies d.vote_message_ok(e) && d.append_message_ok(e) by {
        heartbeats_ok(d, i, s, e);
    }
    assert(step_global(d, c, i, s, sends));
    step_keeps(c, i, s, sends);
}

/// Starting an election, which a candidate wins at once where its own vote is a
/// quorum.
proof fn election_step(c: Cluster, i: u64, from: NodeState)
    requires
        c.inv(),
        c.nodes.contains_key(i),
        c.nodes[i].role != Role::Leader,
        c.nodes[i].election_has_room(),
        from == (NodeState { pre_votes: from.pre_votes, ..c.nodes[i] }),
    ensures
        keeps(c, c.updated(i, from.begin_election().state, from.begin_election().sends)),
{
    let asks = from.vote_requests();
    candidacy_step(c, i, from);
    if from.quorum() == 1 {
        let s = from.candidacy();
        let d = c.updated(i, s, asks);
        assert(d.nodes[i] == s);
        assert(NodeState { votes: Set::empty(), ..s } == s);
        let won = s.become_leader();
        win_step(d, i, Set::empty());
        let end = d.updated(i, won.state, won.sends);
        grown_trans(c, d, end);
        let whole = c.updated(i, won.state, asks + won.sends);
        assert(whole.nodes =~= end.nodes);
        assert(whole.ballots =~= end.ballots);
        assert(whole.sent =~= end.sent) by {
            sends_of_both(asks, won.sends);
        }
        assert(whole == end);
    }
}

/// What is sent in two rounds is what either of them sends.
proof fn sends_of_both(a: Seq<Envelope>, b: Seq<Envelope>)
    ensures
        (a + b).to_set() =~= a.to_set().union(b.to_set()),
{
    let both = a + b;
    assert forall|e: Envelope| a.to_set().union(b.to_set()).contains(e) implies #[trigger]
        both.to_set().contains(e) by {
        if a.contains(e) {
            let k = choose|k: int| 0 <= k < a.len() && a[k] == e;
            assert(both[k] == e);
        } else {
            let k = choose|k: int| 0 <= k < b.len() && b[k] == e;
            assert(both[a.len() + k] == e);
        }
    }
}

// ---------------------------------------------------------------------------
// Replication
// ---------------------------------------------------------------------------

/// A heartbeat round.
proof fn heartbeat_step(c: Cluster, i: u64)
    requires
        c.inv(),
        c.nodes.contains_key(i),
        c.nodes[i].role == Role::Leader,
    ensures
        keeps(c, c.updated(i, c.nodes[i], c.nodes[i].heartbeats())),
{
    let s = c.nodes[i];
    let sends = s.heartbeats();
    let d = c.updated(i, s, sends);
    assert(c.leader_ok(i));
    assert(c.election_ok(s.term));
    assert forall|e: Envelope| #[trigger] sends.to_set().contains(e) implies e.msg is AppendEntries
        by {
        heartbeats_ok(c, i, s, e);
    }
    assert(step_local(c, i, s, sends));
    same_log(c, i, s, sends);
    step_grows(c, i, s, sends);
    assert(d.logs =~= c.logs);
    assert(d.nodes =~= c.nodes);
    assert(d.election_ok(s.term));
    assert forall|p: u64| #[trigger] s.match_index.contains_key(p) implies s.match_index[p]
        <= s.log.entries.len() && s.match_index[p] < u64::MAX && (s.match_index[p] > 0 ==> d.acked(
        p,
        s.term,
        s.match_index[p] as int,
    )) by {
        if s.match_index[p] > 0 {
            acked_grows(c, d, p, s.term, s.match_index[p] as int);
        }
    }
    assert(d.leader_ok(i));
    assert forall|e: Envelope| #[trigger]
        sends.to_set().contains(e) implies d.vote_message_ok(e) && d.append_message_ok(e) by {
        heartbeats_ok(d, i, s, e);
    }
    assert(step_global(d, c, i, s, sends));
    step_keeps(c, i, s, sends);
}

/// Appending a proposal.
proof fn propose_step(c: Cluster, i: u64, command: Seq<u8>)
    requires
        c.inv(),
        c.nodes.contains_key(i),
        c.nodes[i].role == Role::Leader,
        last_index(c.nodes[i].log.entries) < u64::MAX,
    ensures
        ({
            let old = c.nodes[i];
            let s = NodeState {
                log: LogState {
                    entries: old.log.entries.push(old.proposed_entry(command)),
                    ..old.log
                },
                ..old
            };
            keeps(c, c.updated(i, s, s.heartbeats()))
        }),
{
    let old = c.nodes[i];
    let a = old.log.entries;
    let b = a.push(old.proposed_entry(command));
    let s = NodeState { log: LogState { entries: b, ..old.log }, ..old };
    let sends = s.heartbeats();
    let d = c.updated(i, s, sends);
    let t = s.term;
    assert(c.leader_ok(i));
    assert(c.election_ok(t));
    contiguous_lookup_len(a);
    assert(agree(a, b, a.len() as int));
    let mk = |p: u64| s.append_message(p);
    assert(sends == s.to_others(mk));
    assert forall|e: Envelope| #[trigger] sends.to_set().contains(e) implies e.msg is AppendEntries
        by {
        to_others_members(s, mk, e);
    }
    assert(step_local(c, i, s, sends));
    step_grows(c, i, s, sends);
    assert(d.logs[t] == b);
    sound_grows(c, d, a, t, t);
    assert(sound(d.logs, b, t)) by {
        assert forall|k: int| 0 <= k < b.len() implies {
            let x = (#[trigger] b[k]).term;
            1 <= x <= t && d.logs.contains_key(x) && agree(b, d.logs[x], k + 1)
        } by {
            if k < a.len() {
                let x = a[k].term;
                assert(agree(a, d.logs[x], k + 1));
                agree_less(a, b, a.len() as int, k + 1);
                agree_trans(b, a, d.logs[x], k + 1);
            }
        }
    }
    assert forall|u: u64, m: int| #[trigger] d.acked(i, u, m) && m >= 0 implies agree(
        b,
        d.logs[u],
        m,
    ) || d.lost(u, m, t as int) by {
        if u == t && m <= d.logs[t].len() {
        } else {
            if exists|e: Envelope| #[trigger] d.sent.contains(e) && is_ack(e.msg, i, u, m) {
                let e = choose|e: Envelope| #[trigger]
                    d.sent.contains(e) && is_ack(e.msg, i, u, m);
                if !c.sent.contains(e) {
                    assert(sends.to_set().contains(e));
                }
                assert(c.sent.contains(e));
            }
            assert(c.acked(i, u, m));
            acked_bounds(c, i, u, m);
            if agree(a, c.logs[u], m) {
                agree_less(c.logs[u], d.logs[u], c.logs[u].len() as int, m);
                agree_trans(a, c.logs[u], d.logs[u], m);
                agree_less(a, b, a.len() as int, m);
                agree_trans(b, a, d.logs[u], m);
            } else {
                lost_grows(c, d, u, m, t as int, t as int);
            }
        }
    }
    safe_grows(c, d, a, s.log.commit as int, t, t);
    assert(d.safe(b, s.log.commit as int, t)) by {
        let k = s.log.commit as int;
        if k > 0 {
            let (x, m) = choose|x: u64, m: int|
                x <= t && k <= m && #[trigger] d.committed(x, m) && agree(a, d.logs[x], k);
            agree_less(a, b, a.len() as int, k);
            agree_trans(b, a, d.logs[x], k);
            assert(d.committed(x, m));
        }
    }
    assert(d.election_ok(t)) by {
        assert(d.base(t) == c.base(t)) by {
            assert(c.ballots.contains_key((i, t)));
        }
        let base = c.base(t);
        agree_less(a, b, a.len() as int, base.len() as int);
        agree_trans(base, a, b, base.len() as int);
    }
    assert forall|p: u64| #[trigger] s.match_index.contains_key(p) implies s.match_index[p]
        <= b.len() && s.match_index[p] < u64::MAX && (s.match_index[p] > 0 ==> d.acked(
        p,
        t,
        s.match_index[p] as int,
    )) by {
        if s.match_index[p] > 0 {
            acked_grows(c, d, p, t, s.match_index[p] as int);
        }
    }
    assert(d.leader_ok(i));
    assert forall|e: Envelope| #[trigger]
        sends.to_set().contains(e) implies d.vote_message_ok(e) && d.append_message_ok(e) by {
        heartbeats_ok(d, i, s, e);
    }
    assert(step_global(d, c, i, s, sends));
    step_keeps(c, i, s, sends);
}

/// A prefix of a sound log is sound.
proof fn sound_prefix(logs: Map<u64, Seq<Entry>>, log: Seq<Entry>, x: u64, r: Seq<Entry>)
    requires
        sound(logs, log, x),
        agree(r, log, r.len() as int),
    ensures
        sound(logs, r, x),
{
    assert forall|k: int| 0 <= k < r.len() implies {
        let t = (#[trigger] r[k]).term;
        1 <= t <= x && logs.contains_key(t) && agree(r, logs[t], k + 1)
    } by {
        assert(r[k] == log[k]);
        let t = log[k].term;
        agree_less(r, log, r.len() as int, k + 1);
        agree_trans(r, log, logs[t], k + 1);
    }
    assert forall|j: int, k: int|
        #![trigger r[j], r[k]]
        0 <= j <= k < r.len() implies r[j].term <= r[k].term by {
        assert(r[j] == log[j] && r[k] == log[k]);
    }
    assert forall|k: int| 0 <= k < r.len() implies (#[trigger] r[k]).index == k + 1 by {
        assert(r[k] == log[k]);
    }
}

/// How a follower's log changes when it takes in a stretch of the log of its
/// term's leader: up to `k` it stays as it is, and the result is a prefix of
/// itself or of the leader's log.
proof fn follower_merge(
    c: Cluster,
    log: Seq<Entry>,
    t: u64,
    prev: u64,
    prev_term: u64,
    entries: Seq<Entry>,
    completed: nat,
) -> (k: int)
    requires
        c.inv(),
        sound(c.logs, log, t),
        c.elections.contains_key(t),
        prev_matches(log, prev, prev_term),
        prev + entries.len() <= c.logs[t].len(),
        forall|j: int| 0 <= j < entries.len() ==> #[trigger] entries[j] == c.logs[t][prev + j],
        prev > 0 ==> prev_term == c.logs[t][prev - 1].term,
    ensures
        ({
            let r = merged(log, entries, completed);
            let leader = c.logs[t];
            let end = prev + entries.len();
            &&& 0 <= k <= log.len()
            &&& agree(r, log, k)
            &&& k < log.len() ==> k < leader.len() && log[k].term != leader[k].term
            &&& sound(c.logs, r, t)
            &&& completed >= merge_ops(log, entries).len() ==> agree(r, leader, end)
        }),
{
    assert(c.election_ok(t));
    let leader = c.logs[t];
    let end = prev + entries.len();
    crate::raft::log::contiguous_lookup(log, prev);
    if prev > 0 {
        sound_match(c, log, t, leader, t, prev - 1);
    }
    let k = crate::raft::log::merge_shape(log, leader, prev as int, entries, completed);
    let r = merged(log, entries, completed);
    let a = if k < end { k } else { end };
    assert(agree(log, leader, a)) by {
        if a > prev {
            assert(log[a - 1].term == leader[a - 1].term);
            sound_match(c, log, t, leader, t, a - 1);
        }
    }
    assert(agree(r, log, k));
    if r.len() == k {
        sound_prefix(c.logs, log, t, r);
        if completed >= merge_ops(log, entries).len() {
            agree_less(r, log, k, end);
            agree_trans(r, log, leader, end);
        }
    } else {
        assert(r[k] == leader[k]);
        assert forall|j: int| 0 <= j < r.len() implies r[j] == leader[j] by {
            if j < k {
                assert(r[j] == log[j]);
            }
        }
        assert(r[r.len() - 1] == leader[r.len() - 1]);
        assert(agree(r, leader, r.len() as int));
        sound_prefix(c.logs, leader, t, r);
    }
    k
}

/// Handling a replication message of a term not above the node's.
#[verifier::rlimit(40)]
proof fn append_step(
    c: Cluster,
    i: u64,
    term: u64,
    leader_id: u64,
    prev: u64,
    prev_term: u64,
    entries: Seq<Entry>,
    leader_commit: u64,
    completed: nat,
)
    requires
        c.inv(),
        c.nodes.contains_key(i),
        term <= c.nodes[i].term,
        c.sent.contains(
            Envelope {
                to: i,
                msg: Message::AppendEntries {
                    term,
                    leader_id,
                    prev_log_index: prev,
                    prev_log_term: prev_term,
                    entries,
                    leader_commit,
                },
            },
        ),
    ensures
        ({
            let r = c.nodes[i].on_append_entries(
                term,
                leader_id,
                prev,
                prev_term,
                entries,
                leader_commit,
                completed,
            );
            keeps(c, c.updated(i, r.state, r.sends))
        }),
{
    let old = c.nodes[i];
    let r = old.on_append_entries(
        term,
        leader_id,
        prev,
        prev_term,
        entries,
        leader_commit,
        completed,
    );
    let s = r.state;
    let sends = r.sends;
    let d = c.updated(i, s, sends);
    let message = Envelope {
        to: i,
        msg: Message::AppendEntries {
            term,
            leader_id,
            prev_log_index: prev,
            prev_log_term: prev_term,
            entries,
            leader_commit,
        },
    };
    assert(c.append_message_ok(message));
    let answer = sends[0];
    assert forall|e: Envelope| #[trigger] sends.to_set().contains(e) implies e == answer by {
        single_member(answer, e);
    }
    if old.role == Role::Leader {
        assert(c.leader_ok(i));
    }
    let log = old.log.entries;
    if term < old.term || !prev_matches(log, prev, prev_term) {
        quiet_step(c, i, s, sends);
    } else {
        assert(old.role != Role::Leader);
        assert(c.election_ok(term));
        let leader = c.logs[term];
        let end = prev + entries.len();
        let k = follower_merge(c, log, term, prev, prev_term, entries, completed);
        let new = merged(log, entries, completed);
        let success = completed >= merge_ops(log, entries).len();
        assert(s.log.entries == new);
        assert(last_new_index(prev, entries) == end) by {
            if entries.len() > 0 {
                assert(entries[entries.len() - 1] == leader[end - 1]);
                assert(leader[end - 1].index == end);
            }
        }
        assert(step_local(c, i, s, sends));
        step_grows(c, i, s, sends);
        assert(d.logs == c.logs);
        assert(d.elections == c.elections);
        assert(d.ballots == c.ballots);
        assert forall|t: u64, m: int| #[trigger] d.acked(i, t, m) && m >= 0 implies agree(
            new,
            d.logs[t],
            m,
        ) || d.lost(t, m, s.term as int) by {
            if c.acked(i, t, m) {
                acked_bounds(c, i, t, m);
                if agree(log, c.logs[t], m) {
                    if k >= m {
                        agree_less(new, log, k, m);
                        agree_trans(new, log, c.logs[t], m);
                    } else if t == term {
                        assert(log[k] == leader[k]);
                        assert(false);
                    } else if agree(c.base(term), c.logs[t], m) {
                        let base = c.base(term);
                        agree_less(base, leader, base.len() as int, m);
                        assert(leader[k] == base[k]);
                        assert(base[k] == c.logs[t][k]);
                        assert(log[k] == c.logs[t][k]);
                        assert(false);
                    } else {
                        assert(d.base(term) == c.base(term));
                        assert(d.elections.contains_key(term));
                        assert(d.lost(t, m, s.term as int));
                    }
                } else {
                    lost_grows(c, d, t, m, old.term as int, s.term as int);
                }
            } else {
                let e = choose|e: Envelope| #[trigger]
                    d.sent.contains(e) && is_ack(e.msg, i, t, m);
                assert(sends.to_set().contains(e));
                assert(e == answer);
                assert(success && t == term && m <= end);
                agree_less(new, leader, end, m);
            }
        }
        let commit = old.log.commit as int;
        safe_in_leader(c, log, commit, old.term, term);
        if k < commit {
            assert(log[k] == leader[k]);
            assert(false);
        }
        assert(c.safe(new, commit, term)) by {
            if commit > 0 {
                let (t, m) = choose|t: u64, m: int|
                    t <= old.term && commit <= m && #[trigger] c.committed(t, m) && agree(
                        log,
                        c.logs[t],
                        commit,
                    );
                agree_less(new, log, k, commit);
                agree_trans(new, log, c.logs[t], commit);
                assert(c.committed(t, m));
            }
        }
        let x = s.log.commit as int;
        assert(c.safe(new, x, term)) by {
            if x > commit {
                assert(success);
                assert(x <= leader_commit && x <= end && x <= new.len());
                let (t, m) = choose|t: u64, m: int|
                    t <= term && leader_commit <= m && #[trigger] c.committed(t, m) && agree(
                        leader,
                        c.logs[t],
                        leader_commit as int,
                    );
                agree_less(new, leader, end, x);
                agree_less(leader, c.logs[t], leader_commit as int, x);
                agree_trans(new, leader, c.logs[t], x);
                assert(c.committed(t, m));
            }
        }
        contiguous_lookup_len(new);
        assert(x <= new.len());
        safe_grows(c, d, new, x, term, term);
        sound_grows(c, d, new, term, term);
        assert(d.vote_message_ok(answer) && d.append_message_ok(answer));
        assert(step_global(d, c, i, s, sends));
        step_keeps(c, i, s, sends);
    }
}

/// The commit index to which a leader advances is its own or a committable one.
proof fn highest_is_committable(s: NodeState, n: u64)
    ensures
        ({
            let h = s.highest_committable(n);
            h == s.log.commit || (s.log.commit < h <= n && s.committable(h))
        }),
    decreases n,
{
    if n > s.log.commit && !s.committable(n) {
        highest_is_committable(s, (n - 1) as u64);
    }
}

/// A leader's advance of its commit index.
proof fn commit_step(c: Cluster, i: u64)
    requires
        c.inv(),
        c.nodes.contains_key(i),
        c.nodes[i].role == Role::Leader,
    ensures
        keeps(c, c.updated(i, c.nodes[i].advance_commit(), Seq::empty())),
{
    let old = c.nodes[i];
    let t = old.term;
    let s = old.advance_commit();
    let sends = Seq::<Envelope>::empty();
    let d = c.updated(i, s, sends);
    assert(sends.to_set() =~= Set::empty());
    assert(c.leader_ok(i));
    assert(c.election_ok(t));
    let log = s.log.entries;
    let h = s.log.commit;
    assert(h == old.highest_committable(last_index(log)));
    highest_is_committable(old, last_index(log));
    contiguous_lookup_len(log);
    assert(step_local(c, i, s, sends));
    step_grows(c, i, s, sends);
    assert(d.logs =~= c.logs);
    assert(d.sent =~= c.sent);
    assert forall|p: u64| #[trigger] s.match_index.contains_key(p) implies s.match_index[p]
        <= log.len() && s.match_index[p] < u64::MAX && (s.match_index[p] > 0 ==> d.acked(
        p,
        t,
        s.match_index[p] as int,
    )) by {
        if s.match_index[p] > 0 {
            acked_grows(c, d, p, t, s.match_index[p] as int);
        }
    }
    assert(d.leader_ok(i));
    assert(d.election_ok(t)) by {
        assert(d.base(t) == c.base(t)) by {
            assert(c.ballots.contains_key((i, t)));
        }
    }
    sound_grows(c, d, log, t, t);
    assert forall|u: u64, m: int| #[trigger] d.acked(i, u, m) && m >= 0 implies agree(
        log,
        d.logs[u],
        m,
    ) || d.lost(u, m, t as int) by {
        if exists|e: Envelope| #[trigger] d.sent.contains(e) && is_ack(e.msg, i, u, m) {
            let e = choose|e: Envelope| #[trigger] d.sent.contains(e) && is_ack(e.msg, i, u, m);
            assert(c.sent.contains(e));
        }
        assert(c.acked(i, u, m));
        acked_bounds(c, i, u, m);
        if !agree(log, c.logs[u], m) {
            lost_grows(c, d, u, m, t as int, t as int);
        }
    }
    if h == old.log.commit {
        safe_grows(c, d, log, h as int, t, t);
    } else {
        crate::raft::log::contiguous_lookup(log, h);
        let others = old.replicas(h);
        let q = others.insert(i);
        assert(others.subset_of(c.peers.to_set()));
        vstd::set_lib::lemma_set_subset_finite(c.peers.to_set(), others);
        assert(!others.contains(i));
        assert(q.subset_of(c.peers.to_set())) by {
            assert(c.peers.contains(i));
        }
        assert(d.is_quorum(q));
        assert forall|v: u64| #[trigger] q.contains(v) implies d.acked(v, t, h as int) by {
            if v != i {
                assert(others.contains(v));
                assert(s.match_index.contains_key(v));
                acked_less(d, v, t, s.match_index[v] as int, h as int);
            }
        }
        assert(d.committed(t, h as int));
        assert(agree(log, d.logs[t], h as int));
        assert(d.safe(log, h as int, t));
    }
    assert(step_global(d, c, i, s, sends));
    step_keeps(c, i, s, sends);
}

/// A step of a leader after which it advances its commit index, both without
/// messages, amounts to one step.
proof fn commit_after(c: Cluster, i: u64, s: NodeState)
    requires
        c.nodes.contains_key(i),
        c.nodes[i].role == Role::Leader,
        s.role == Role::Leader,
        s.term == c.nodes[i].term,
        s.voted_for == c.nodes[i].voted_for,
        keeps(c, c.updated(i, s, Seq::empty())),
    ensures
        keeps(c, c.updated(i, s.advance_commit(), Seq::empty())),
{
    let none = Seq::<Envelope>::empty();
    assert(none.to_set() =~= Set::empty());
    let d = c.updated(i, s, none);
    assert(d.nodes[i] == s);
    commit_step(d, i);
    let end = d.updated(i, s.advance_commit(), none);
    grown_trans(c, d, end);
    let whole = c.updated(i, s.advance_commit(), none);
    assert(whole.nodes =~= end.nodes);
    assert(whole.logs =~= end.logs);
    assert(whole.sent =~= end.sent);
    assert(whole == end);
}

/// A node whose own vote is a quorum sends nothing.
proof fn alone_sends_nothing(c: Cluster, i: u64, s: NodeState)
    requires
        c.inv(),
        c.nodes.contains_key(i),
        s.id == i,
        s.peers == c.peers,
        s.quorum() == 1,
    ensures
        s.heartbeats() == Seq::<Envelope>::empty(),
{
    let mk = |p: u64| s.append_message(p);
    assert(s.heartbeats() == s.to_others(mk));
    assert(c.peers.contains(i));
    assert forall|e: Envelope| !(#[trigger] s.heartbeats().contains(e)) by {
        if s.heartbeats().contains(e) {
            to_others_members(s, mk, e);
        }
    }
    if s.heartbeats().len() > 0 {
        assert(s.heartbeats().contains(s.heartbeats()[0]));
    }
    assert(s.heartbeats() =~= Seq::empty());
}

/// Handling a proposal that is taken in.
proof fn proposal_step(c: Cluster, i: u64, command: Seq<u8>)
    requires
        c.inv(),
        c.nodes.contains_key(i),
        c.nodes[i].role == Role::Leader,
        c.nodes[i].uncommitted() < c.nodes[i].max_uncommitted,
        last_index(c.nodes[i].log.entries) < u64::MAX,
    ensures
        ({
            let r = c.nodes[i].on_propose(command, 1, Seq::empty());
            keeps(c, c.updated(i, r.state, r.sends))
        }),
{
    let old = c.nodes[i];
    let s = NodeState {
        log: LogState { entries: old.log.entries.push(old.proposed_entry(command)), ..old.log },
        ..old
    };
    propose_step(c, i, command);
    if old.quorum() == 1 {
        alone_sends_nothing(c, i, s);
        alone_sends_nothing(c, i, s.advance_commit());
        commit_after(c, i, s);
    }
}

/// Recording an acknowledgement in the leader's term.
proof fn ack_step(c: Cluster, i: u64, match_index: u64, from: u64)
    requires
        c.inv(),
        c.nodes.contains_key(i),
        c.nodes[i].role == Role::Leader,
        c.nodes[i].is_other(from),
        match_index < u64::MAX,
        c.sent.contains(
            Envelope {
                to: i,
                msg: Message::AppendEntriesResponse {
                    term: c.nodes[i].term,
                    success: true,
                    match_index,
                    from,
                },
            },
        ),
    ensures
        ({
            let r = c.nodes[i].on_append_response(c.nodes[i].term, true, match_index, from);
            keeps(c, c.updated(i, r.state, r.sends))
        }),
{
    let old = c.nodes[i];
    let t = old.term;
    let r = old.on_append_response(t, true, match_index, from);
    let s = NodeState { log: old.log, ..r.state };
    let sends = r.sends;
    let d = c.updated(i, s, sends);
    let message = Envelope {
        to: i,
        msg: Message::AppendEntriesResponse { term: t, success: true, match_index, from },
    };
    assert(sends.to_set() =~= Set::empty());
    assert(c.append_message_ok(message));
    assert(c.leader_ok(i));
    assert(c.election_ok(t));
    let log = s.log.entries;
    assert(log == old.log.entries);
    assert(step_local(c, i, s, sends));
    same_log(c, i, s, sends);
    step_grows(c, i, s, sends);
    assert(d.logs =~= c.logs);
    assert forall|p: u64| #[trigger] s.match_index.contains_key(p) implies s.match_index[p]
        <= log.len() && s.match_index[p] < u64::MAX && (s.match_index[p] > 0 ==> d.acked(
        p,
        t,
        s.match_index[p] as int,
    )) by {
        if s.match_index[p] > 0 {
            if p == from && s.match_index[p] == match_index {
                assert(d.sent.contains(message));
                assert(is_ack(message.msg, p, t, match_index as int));
            } else {
                assert(old.match_index.contains_key(p));
                acked_grows(c, d, p, t, s.match_index[p] as int);
            }
        }
    }
    assert(d.leader_ok(i));
    assert(d.election_ok(t)) by {
        assert(d.base(t) == c.base(t)) by {
            assert(c.ballots.contains_key((i, t)));
        }
    }
    assert(step_global(d, c, i, s, sends));
    step_keeps(c, i, s, sends);
    assert(sends == Seq::<Envelope>::empty());
    assert(r.state == s.advance_commit());
    commit_after(c, i, s);
}

proof fn acked_less(c: Cluster, v: u64, t: u64, m: int, n: int)
    requires
        c.acked(v, t, m),
        0 <= n <= m,
    ensures
        c.acked(v, t, n),
{
    if exists|e: Envelope| #[trigger] c.sent.contains(e) && is_ack(e.msg, v, t, m) {
        let e = choose|e: Envelope| #[trigger] c.sent.contains(e) && is_ack(e.msg, v, t, m);
        assert(is_ack(e.msg, v, t, n));
    }
}

// ---------------------------------------------------------------------------
// Every step
// ---------------------------------------------------------------------------

/// Stepping down first and reacting then amounts to one step.
proof fn step_down_first(c: Cluster, i: u64, remote: u64, s: NodeState, sends: Seq<Envelope>)
    requires
        c.nodes.contains_key(i),
        remote > c.nodes[i].term,
        s.term == remote,
        s.role != Role::Leader,
    ensures
        c.updated(i, s, sends) == c.updated(
            i,
            c.nodes[i].step_down(remote),
            Seq::empty(),
        ).updated(i, s, sends),
{
    let none = Seq::<Envelope>::empty();
    assert(none.to_set() =~= Set::empty());
    let d = c.updated(i, c.nodes[i].step_down(remote), none);
    assert(d.sent =~= c.sent);
    assert(c.updated(i, s, sends).nodes =~= d.updated(i, s, sends).nodes);
}

/// Handling a message whose term is not above the node's, or a pre-vote request.
proof fn message_step_at(c: Cluster, i: u64, msg: Message, completed: nat)
    requires
        c.inv(),
        c.nodes.contains_key(i),
        c.sent.contains(Envelope { to: i, msg }),
        c.nodes[i].has_room(Event::Receive(msg)),
        msg is PreVote || msg.term() <= c.nodes[i].term,
    ensures
        ({
            let r = c.nodes[i].on_message(msg, completed);
            keeps(c, c.updated(i, r.state, r.sends))
        }),
{
    let old = c.nodes[i];
    let r = old.on_message(msg, completed);
    let e = Envelope { to: i, msg };
    assert(c.vote_message_ok(e));
    assert(c.append_message_ok(e));
    let none = Seq::<Envelope>::empty();
    assert(none.to_set() =~= Set::empty());
    if old.role == Role::Leader {
        assert(c.leader_ok(i));
    }
    match msg {
        Message::RequestVote { term, candidate_id, last_log_index, last_log_term } => {
            vote_step(c, i, term, candidate_id, last_log_index, last_log_term);
        },
        Message::RequestVoteResponse { term, vote_granted, from } => {
            if old.role == Role::Candidate && vote_granted && term == old.term && old.is_other(
                from,
            ) {
                let mid = NodeState { votes: old.votes.insert(from), ..old };
                if mid.votes.len() + 1 >= old.quorum() {
                    win_step(c, i, mid.votes);
                } else {
                    quiet_step(c, i, mid, none);
                }
            } else {
                quiet_step(c, i, old, none);
            }
        },
        Message::PreVote { term, candidate_id, last_log_index, last_log_term } => {
            let answer = r.sends[0];
            assert forall|x: Envelope| #[trigger] r.sends.to_set().contains(x) implies x
                == answer by {
                single_member(answer, x);
            }
            quiet_step(c, i, old, r.sends);
        },
        Message::PreVoteResponse { term, vote_granted, from } => {
            if old.role != Role::Leader && old.pre_voting && vote_granted && old.is_other(from) {
                let mid = NodeState { pre_votes: old.pre_votes.insert(from), ..old };
                if mid.pre_votes.len() + 1 >= old.quorum() {
                    election_step(c, i, mid);
                } else {
                    quiet_step(c, i, mid, none);
                }
            } else {
                quiet_step(c, i, old, none);
            }
        },
        Message::AppendEntries {
            term,
            leader_id,
            prev_log_index,
            prev_log_term,
            entries,
            leader_commit,
        } => {
            append_step(
                c,
                i,
                term,
                leader_id,
                prev_log_index,
                prev_log_term,
                entries,
                leader_commit,
                completed,
            );
        },
        Message::AppendEntriesResponse { term, success, match_index, from } => {
            if old.role == Role::Leader && term == old.term && old.is_other(from) && success {
                ack_step(c, i, match_index, from);
            } else {
                quiet_step(c, i, r.state, none);
            }
        },
    }
}

proof fn message_step(c: Cluster, i: u64, msg: Message, completed: nat)
    requires
        c.inv(),
        c.enabled(i, Event::Receive(msg)),
    ensures
        ({
            let r = c.nodes[i].on_message(msg, completed);
            keeps(c, c.updated(i, r.state, r.sends))
        }),
{
    let old = c.nodes[i];
    let remote = msg.term();
    if !(msg is PreVote) && remote > old.term {
        step_down_step(c, i, remote);
        let s = old.step_down(remote);
        let none = Seq::<Envelope>::empty();
        let d = c.updated(i, s, none);
        assert(none.to_set() =~= Set::empty());
        assert(d.nodes[i] == s);
        let r = s.on_message(msg, completed);
        assert(s.step_down(remote) == s);
        assert(r == old.on_message(msg, completed));
        assert(d.sent.contains(Envelope { to: i, msg }));
        message_step_at(d, i, msg, completed);
        grown_trans(c, d, d.updated(i, r.state, r.sends));
        assert(r.state.term == remote && r.state.role != Role::Leader);
        step_down_first(c, i, remote, r.state, r.sends);
    } else {
        message_step_at(c, i, msg, completed);
    }
}

/// Every step of a cluster keeps the invariant.
proof fn next_keeps(c: Cluster, i: u64, event: Event, completed: nat)
    requires
        c.inv(),
        c.enabled(i, event),
    ensures
        keeps(c, c.after(i, event, completed)),
{
    let old = c.nodes[i];
    let none = Seq::<Envelope>::empty();
    assert(none.to_set() =~= Set::empty());
    if old.role == Role::Leader {
        assert(c.leader_ok(i));
    }
    match event {
        Event::Receive(msg) => {
            message_step(c, i, msg, completed);
        },
        Event::ElectionTimeout => {
            if old.role == Role::Leader {
                quiet_step(c, i, old, none);
            } else if old.pre_vote && old.quorum() > 1 {
                let r = old.on_election_timeout();
                let ask = Message::PreVote {
                    term: (old.term + 1) as u64,
                    candidate_id: old.id,
                    last_log_index: last_index(old.log.entries),
                    last_log_term: last_term(old.log.entries),
                };
                let mk = |p: u64| ask;
                assert(r.sends == old.to_others(mk));
                assert forall|e: Envelope| #[trigger] r.sends.to_set().contains(e) implies e.msg
                    == ask by {
                    to_others_members(old, mk, e);
                }
                quiet_step(c, i, r.state, r.sends);
            } else {
                election_step(c, i, old);
            }
        },
        Event::HeartbeatTick => {
            if old.role == Role::Leader {
                heartbeat_step(c, i);
            } else {
                quiet_step(c, i, old, none);
            }
        },
        Event::Propose(command) => {
            if old.role == Role::Leader && old.uncommitted() < old.max_uncommitted && completed
                >= 1 {
                proposal_step(c, i, command);
            } else {
                quiet_step(c, i, old, none);
            }
        },
    }
}

proof fn init_holds(c: Cluster)
    requires
        c.init(),
    ensures
        c.inv(),
{
    assert forall|i: u64| #[trigger] c.nodes.contains_key(i) implies {
        let s = c.nodes[i];
        &&& s.id == i
        &&& s.peers == c.peers
        &&& s.votes.finite()
        &&& forall|v: u64| #[trigger] s.votes.contains(v) ==> s.is_other(v)
    } by {
        assert(fresh_node(c.nodes[i], i, c.peers));
    }
    assert forall|v: u64, t: u64, m: int| !(#[trigger] c.acked(v, t, m)) by {
    }
}

/// Every cluster of a run satisfies the invariant.
proof fn run_holds(run: Seq<Cluster>, n: int)
    requires
        is_run(run),
        0 <= n < run.len(),
    ensures
        run[n].inv(),
    decreases n,
{
    if n == 0 {
        init_holds(run[0]);
    } else {
        run_holds(run, n - 1);
        let c = run[n - 1];
        assert(c.next(run[n]));
        let (i, event, completed) = choose|i: u64, event: Event, completed: nat|
            c.enabled(i, event) && run[n] == #[trigger] c.after(i, event, completed);
        next_keeps(c, i, event, completed);
    }
}

/// History only accumulates along a run.
proof fn run_grows(run: Seq<Cluster>, n: int, m: int)
    requires
        is_run(run),
        0 <= n <= m < run.len(),
    ensures
        grown(run[n], run[m]),
    decreases m - n,
{
    if n < m {
        run_grows(run, n, m - 1);
        run_holds(run, m - 1);
        let c = run[m - 1];
        let d = run[m];
        assert(c.next(d));
        let (i, event, completed) = choose|i: u64, event: Event, completed: nat|
            c.enabled(i, event) && d == #[trigger] c.after(i, event, completed);
        next_keeps(c, i, event, completed);
        grown_trans(run[n], c, d);
    } else {
        run_holds(run, n);
    }
}

proof fn grown_trans(a: Cluster, b: Cluster, c: Cluster)
    requires
        grown(a, b),
        grown(b, c),
    ensures
        grown(a, c),
{
    assert forall|t: u64| #[trigger] a.logs.contains_key(t) implies c.logs.contains_key(t) && agree(
        a.logs[t],
        c.logs[t],
        a.logs[t].len() as int,
    ) by {
        assert(b.logs.contains_key(t));
        agree_less(b.logs[t], c.logs[t], b.logs[t].len() as int, a.logs[t].len() as int);
        agree_trans(a.logs[t], b.logs[t], c.logs[t], a.logs[t].len() as int);
    }
    assert forall|v: u64, t: u64| #[trigger]
        a.ballots.contains_key((v, t)) implies c.ballots.contains_key((v, t)) && c.ballots[(v, t)]
        == a.ballots[(v, t)] by {
        assert(b.ballots.contains_key((v, t)));
    }
    assert forall|t: u64| #[trigger] a.elections.contains_key(t) implies c.elections.contains_key(t)
        && c.elections[t] == a.elections[t] by {
        assert(b.elections.contains_key(t));
    }
    assert forall|i: u64| #[trigger] a.nodes.contains_key(i) implies a.nodes[i].term
        <= c.nodes[i].term by {
        assert(b.nodes.contains_key(i));
    }
}

// ---------------------------------------------------------------------------
// Safety properties
// ---------------------------------------------------------------------------

/// Election safety: at most one node ever leads in a term, over the whole run.
pub proof fn election_safety(run: Seq<Cluster>, n: int, a: u64, m: int, b: u64)
    requires
        is_run(run),
        0 <= n < run.len(),
        0 <= m < run.len(),
        run[n].nodes.contains_key(a),
        run[n].nodes[a].role == Role::Leader,
        run[m].nodes.contains_key(b),
        run[m].nodes[b].role == Role::Leader,
        run[n].nodes[a].term == run[m].nodes[b].term,
    ensures
        a == b,
{
    run_holds(run, n);
    run_holds(run, m);
    assert(run[n].leader_ok(a));
    assert(run[m].leader_ok(b));
    if n <= m {
        run_grows(run, n, m);
    } else {
        run_grows(run, m, n);
    }
}

/// Log matching: if two logs hold entries of the same term at an index, the logs
/// are identical up to and including it.
pub proof fn log_matching(run: Seq<Cluster>, n: int, a: u64, b: u64, index: u64)
    requires
        is_run(run),
        0 <= n < run.len(),
        run[n].nodes.contains_key(a),
        run[n].nodes.contains_key(b),
        index > 0,
        term_at(run[n].nodes[a].log.entries, index) is Some,
        term_at(run[n].nodes[a].log.entries, index) == term_at(
            run[n].nodes[b].log.entries,
            index,
        ),
    ensures
        forall|i: u64|
            i <= index ==> #[trigger] entry_at(run[n].nodes[a].log.entries, i) == entry_at(
                run[n].nodes[b].log.entries,
                i,
            ),
{
    run_holds(run, n);
    let c = run[n];
    let la = c.nodes[a].log.entries;
    let lb = c.nodes[b].log.entries;
    crate::raft::log::contiguous_lookup(la, index);
    crate::raft::log::contiguous_lookup(lb, index);
    sound_match(c, la, c.nodes[a].term, lb, c.nodes[b].term, index - 1);
    assert forall|i: u64| i <= index implies #[trigger] entry_at(la, i) == entry_at(lb, i) by {
        crate::raft::log::contiguous_lookup(la, i);
        crate::raft::log::contiguous_lookup(lb, i);
        if i > 0 {
            assert(la[i - 1] == lb[i - 1]);
        }
    }
}

/// Leader completeness: what a node has committed at some point of a run is in
/// the log of every leader of a later term, at any point of the run.
pub proof fn leader_completeness(run: Seq<Cluster>, n: int, a: u64, m: int, b: u64, index: u64)
    requires
        is_run(run),
        0 <= n < run.len(),
        0 <= m < run.len(),
        run[n].nodes.contains_key(a),
        1 <= index <= run[n].nodes[a].log.commit,
        run[m].nodes.contains_key(b),
        run[m].nodes[b].role == Role::Leader,
        run[n].nodes[a].term < run[m].nodes[b].term,
    ensures
        entry_at(run[n].nodes[a].log.entries, index) is Some,
        entry_at(run[m].nodes[b].log.entries, index) == entry_at(
            run[n].nodes[a].log.entries,
            index,
        ),
{
    let last = if n <= m { m } else { n };
    run_holds(run, n);
    run_holds(run, m);
    run_holds(run, last);
    run_grows(run, n, last);
    run_grows(run, m, last);
    let c = run[last];
    let sa = run[n].nodes[a];
    let sb = run[m].nodes[b];
    let k = sa.log.commit as int;
    safe_grows(run[n], c, sa.log.entries, k, sa.term, sa.term);
    let (t, x) = choose|t: u64, x: int|
        t <= sa.term && k <= x && #[trigger] c.committed(t, x) && agree(
            sa.log.entries,
            c.logs[t],
            k,
        );
    assert(run[m].leader_ok(b));
    assert(run[m].election_ok(sb.term));
    assert(c.elections.contains_key(sb.term));
    completeness(c, t, x, sb.term);
    // The leader was elected with a log that the completeness of its election covers.
    let base = c.base(sb.term);
    assert(run[m].ballots.contains_key((b, sb.term)));
    assert(base == run[m].base(sb.term));
    agree_less(base, c.logs[t], x, k);
    agree_less(base, sb.log.entries, base.len() as int, k);
    agree_trans(sa.log.entries, c.logs[t], base, k);
    agree_trans(sa.log.entries, base, sb.log.entries, k);
    crate::raft::log::contiguous_lookup(sa.log.entries, index);
    crate::raft::log::contiguous_lookup(sb.log.entries, index);
    assert(sa.log.entries[index - 1] == sb.log.entries[index - 1]);
}

/// State machine safety: no two nodes ever commit different entries at an index,
/// over the whole run.
pub proof fn state_machine_safety(run: Seq<Cluster>, n: int, a: u64, m: int, b: u64, index: u64)
    requires
        is_run(run),
        0 <= n < run.len(),
        0 <= m < run.len(),
        run[n].nodes.contains_key(a),
        run[m].nodes.contains_key(b),
        1 <= index <= run[n].nodes[a].log.commit,
        index <= run[m].nodes[b].log.commit,
    ensures
        entry_at(run[n].nodes[a].log.entries, index) is Some,
        entry_at(run[n].nodes[a].log.entries, index) == entry_at(
            run[m].nodes[b].log.entries,
            index,
        ),
{
    let last = if n <= m { m } else { n };
    run_holds(run, n);
    run_holds(run, m);
    run_holds(run, last);
    run_grows(run, n, last);
    run_grows(run, m, last);
    let c = run[last];
    let sa = run[n].nodes[a];
    let sb = run[m].nodes[b];
    let k = index as int;
    safe_grows(run[n], c, sa.log.entries, sa.log.commit as int, sa.term, sa.term);
    safe_grows(run[m], c, sb.log.entries, sb.log.commit as int, sb.term, sb.term);
    let (t, x) = choose|t: u64, x: int|
        t <= sa.term && sa.log.commit <= x && #[trigger] c.committed(t, x) && agree(
            sa.log.entries,
            c.logs[t],
            sa.log.commit as int,
        );
    let (u, y) = choose|u: u64, y: int|
        u <= sb.term && sb.log.commit <= y && #[trigger] c.committed(u, y) && agree(
            sb.log.entries,
            c.logs[u],
            sb.log.commit as int,
        );
    agree_less(sa.log.entries, c.logs[t], sa.log.commit as int, k);
    agree_less(sb.log.entries, c.logs[u], sb.log.commit as int, k);
    if t < u {
        completeness(c, t, x, u);
        agree_less(c.logs[u], c.logs[t], x, k);
    } else if u < t {
        completeness(c, u, y, t);
        agree_less(c.logs[t], c.logs[u], y, k);
    }
    agree_trans(sa.log.entries, c.logs[t], c.logs[u], k);
    agree_trans(sa.log.entries, c.logs[u], sb.log.entries, k);
    crate::raft::log::contiguous_lookup(sa.log.entries, index);
    crate::raft::log::contiguous_lookup(sb.log.entries, index);
    assert(sa.log.entries[index - 1] == sb.log.entries[index - 1]);
}

} // verus!
