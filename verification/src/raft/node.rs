//! Raft consensus node.
//!
//! [`RaftNode`] decides how a node reacts to each event: a message from a peer,
//! an election timeout, a heartbeat tick or a client proposal. It performs no
//! I/O itself. The caller first carries out the storage operations of
//! [`RaftNode::storage_plan`], then calls [`RaftNode::handle_event`] with a
//! report on them and delivers the messages it returns.
//!
//! [`NodeState`] is the mathematical view of a node, and its methods say what
//! each event does to it and which messages it gives rise to.

use std::collections::{HashMap, HashSet};
use vstd::prelude::*;

use crate::raft::config::{quorum, RaftConfig};
use crate::raft::error::RaftError;
use crate::raft::log::{
    contiguous, contiguous_lookup, last_index, last_term, merge_ops, merged, op_views, prev_matches, range, term_at,
    LogOp, LogState, Op, RaftLog, StorageReport,
};
use crate::raft::message::{entry_views, Entry, LogEntry, Message, RaftMessage};
use crate::raft::state_machine::{accepted_count, state_after, StateMachine};

verus! {

broadcast use vstd::std_specs::hash::group_hash_axioms;

/// The role of a node in the cluster.
#[derive(Debug, Clone, Copy, PartialEq, Eq, Structural)]
pub enum Role {
    /// Passive participant. Responds to leaders and candidates.
    Follower,
    /// Actively seeking votes.
    Candidate,
    /// Active leader. Replicates log entries and services client proposals.
    Leader,
}

/// A message and the peer that it is for, as the specification sees it.
#[verifier::ext_equal]
pub struct Envelope {
    pub to: u64,
    pub msg: Message,
}

/// What the node answers to a client proposal, as the specification sees it.
#[verifier::ext_equal]
pub enum Reply {
    /// The proposal was appended at the index in the term.
    Accepted { index: u64, term: u64 },
    /// The node is not the leader.
    NotLeader { leader: Option<u64> },
    /// Too many entries are uncommitted.
    BackPressure { count: u64 },
    /// The entry could not be stored.
    StorageFailure { error: Seq<char> },
}

/// An event, as the specification sees it.
#[verifier::ext_equal]
pub enum Event {
    /// A message arrived from a peer.
    Receive(Message),
    /// The election timer expired.
    ElectionTimeout,
    /// The heartbeat timer ticked.
    HeartbeatTick,
    /// A client proposed a command.
    Propose(Seq<u8>),
}

/// What a node does in reaction to an event.
#[verifier::ext_equal]
pub struct Reaction {
    pub state: NodeState,
    pub sends: Seq<Envelope>,
    pub reply: Option<Reply>,
}

/// Mathematical view of a [`RaftNode`].
#[verifier::ext_equal]
pub struct NodeState {
    pub id: u64,
    pub peers: Seq<u64>,
    pub pre_vote: bool,
    pub max_batch: nat,
    pub max_uncommitted: u64,
    pub term: u64,
    pub voted_for: Option<u64>,
    pub role: Role,
    pub log: LogState,
    pub votes: Set<u64>,
    pub pre_voting: bool,
    pub pre_votes: Set<u64>,
    pub next_index: Map<u64, u64>,
    pub match_index: Map<u64, u64>,
    pub leader_id: Option<u64>,
}

/// The index up to which a follower that accepted the entries matches the
/// leader: that of the last new entry.
pub open spec fn last_new_index(prev_log_index: u64, entries: Seq<Entry>) -> u64 {
    if entries.len() == 0 {
        prev_log_index
    } else {
        entries.last().index
    }
}

/// The smaller of two numbers.
pub open spec fn min(a: u64, b: u64) -> u64 {
    if a < b {
        a
    } else {
        b
    }
}

impl NodeState {
    /// The number of votes or replicas that make a majority.
    pub open spec fn quorum(self) -> nat {
        quorum(self.peers.len())
    }

    /// Whether a node is another member of the cluster.
    pub open spec fn is_other(self, node: u64) -> bool {
        self.peers.contains(node) && node != self.id
    }

    /// One message to every other member, in the order of the peer list.
    pub open spec fn to_others(self, msg: spec_fn(u64) -> Message) -> Seq<Envelope> {
        self.peers.filter(|p: u64| p != self.id).map_values(
            |p: u64| Envelope { to: p, msg: msg(p) },
        )
    }

    /// Whether a log with the given last entry is at least as up-to-date as this
    /// node's: its last term is greater, or equal with a last index no smaller.
    pub open spec fn accepts_log(self, index: u64, term: u64) -> bool {
        let log = self.log.entries;
        term > last_term(log) || (term == last_term(log) && index >= last_index(log))
    }

    /// Nothing changes and nothing is sent.
    pub open spec fn unchanged(self) -> Reaction {
        Reaction { state: self, sends: Seq::empty(), reply: None }
    }

    /// A higher term makes any node a follower of that term.
    pub open spec fn step_down(self, remote_term: u64) -> NodeState {
        if remote_term > self.term {
            NodeState {
                term: remote_term,
                role: Role::Follower,
                voted_for: None,
                pre_voting: false,
                ..self
            }
        } else {
            self
        }
    }

    /// The node as a candidate of the next term, with a vote for itself.
    pub open spec fn candidacy(self) -> NodeState {
        NodeState {
            term: (self.term + 1) as u64,
            role: Role::Candidate,
            voted_for: Some(self.id),
            votes: Set::empty(),
            pre_voting: false,
            ..self
        }
    }

    /// The requests for the others' votes in the next term.
    pub open spec fn vote_requests(self) -> Seq<Envelope> {
        let ask = Message::RequestVote {
            term: (self.term + 1) as u64,
            candidate_id: self.id,
            last_log_index: last_index(self.log.entries),
            last_log_term: last_term(self.log.entries),
        };
        self.to_others(|p: u64| ask)
    }

    /// Start a real election: enter the next term as a candidate with a vote for
    /// itself, and ask the others for theirs. Where its own vote is a quorum, the
    /// candidate becomes leader at once.
    pub open spec fn begin_election(self) -> Reaction {
        if self.quorum() == 1 {
            let won = self.candidacy().become_leader();
            Reaction { state: won.state, sends: self.vote_requests() + won.sends, reply: None }
        } else {
            Reaction { state: self.candidacy(), sends: self.vote_requests(), reply: None }
        }
    }

    /// The election timer expired: start a pre-vote round where there is one to
    /// win, otherwise a real election. A leader has no election timer.
    pub open spec fn on_election_timeout(self) -> Reaction {
        if self.role == Role::Leader {
            self.unchanged()
        } else if self.pre_vote && self.quorum() > 1 {
            let ask = Message::PreVote {
                term: (self.term + 1) as u64,
                candidate_id: self.id,
                last_log_index: last_index(self.log.entries),
                last_log_term: last_term(self.log.entries),
            };
            Reaction {
                state: NodeState { pre_voting: true, pre_votes: Set::empty(), ..self },
                sends: self.to_others(|p: u64| ask),
                reply: None,
            }
        } else {
            self.begin_election()
        }
    }

    /// What the leader sends to a peer: the entries from the peer's next index
    /// on, at most one batch of them, with the position that precedes them.
    pub open spec fn append_message(self, peer: u64) -> Message {
        let log = self.log.entries;
        let next: u64 = if self.next_index.contains_key(peer) { self.next_index[peer] } else { 1 };
        let prev: u64 = if next == 0 { 0 } else { (next - 1) as u64 };
        let prev_term: u64 = match term_at(log, prev) {
            Some(t) => t,
            None => 0,
        };
        let last = last_index(log) as int;
        let end = if next + self.max_batch - 1 < last { next + self.max_batch - 1 } else { last };
        Message::AppendEntries {
            term: self.term,
            leader_id: self.id,
            prev_log_index: prev,
            prev_log_term: prev_term,
            entries: range(log, next as int, end),
            leader_commit: self.log.commit,
        }
    }

    /// The messages of a heartbeat round.
    pub open spec fn heartbeats(self) -> Seq<Envelope> {
        self.to_others(|p: u64| self.append_message(p))
    }

    /// Take up leadership: every other member's next index follows the log, no
    /// replication is known, and a heartbeat round asserts authority.
    pub open spec fn become_leader(self) -> Reaction {
        let state = NodeState {
            role: Role::Leader,
            leader_id: Some(self.id),
            pre_voting: false,
            next_index: Map::new(
                |p: u64| self.is_other(p),
                |p: u64| (last_index(self.log.entries) + 1) as u64,
            ),
            match_index: Map::new(|p: u64| self.is_other(p), |p: u64| 0u64),
            ..self
        };
        Reaction { state, sends: state.heartbeats(), reply: None }
    }

    /// Grant a vote if the candidate's term is not behind, no one else has this
    /// node's vote in the term, and the candidate's log is up-to-date.
    pub open spec fn grants_vote(self, term: u64, candidate: u64, index: u64, log_term: u64) -> bool {
        &&& term >= self.term
        &&& self.voted_for is None || self.voted_for == Some(candidate)
        &&& self.accepts_log(index, log_term)
    }

    /// Answer a request for a vote. A node that grants its vote follows.
    pub open spec fn on_request_vote(
        self,
        term: u64,
        candidate: u64,
        index: u64,
        log_term: u64,
    ) -> Reaction {
        let granted = self.grants_vote(term, candidate, index, log_term);
        let state = if granted {
            NodeState {
                voted_for: Some(candidate),
                role: Role::Follower,
                pre_voting: false,
                ..self
            }
        } else {
            self
        };
        let response = Message::RequestVoteResponse {
            term: self.term,
            vote_granted: granted,
            from: self.id,
        };
        Reaction {
            state,
            sends: seq![Envelope { to: candidate, msg: response }],
            reply: None,
        }
    }

    /// Count a vote that another member cast for this candidate in its current
    /// term; with a quorum, its own vote included, it becomes leader.
    pub open spec fn on_vote_response(self, term: u64, granted: bool, from: u64) -> Reaction {
        if self.role == Role::Candidate && granted && term == self.term && self.is_other(from) {
            let state = NodeState { votes: self.votes.insert(from), ..self };
            if state.votes.len() + 1 >= self.quorum() {
                state.become_leader()
            } else {
                state.unchanged()
            }
        } else {
            self.unchanged()
        }
    }

    /// Answer a pre-vote request. Neither the term nor the vote changes.
    pub open spec fn on_pre_vote(
        self,
        term: u64,
        candidate: u64,
        index: u64,
        log_term: u64,
    ) -> Reaction {
        let granted = term >= self.term && self.accepts_log(index, log_term);
        let response = Message::PreVoteResponse {
            term: self.term,
            vote_granted: granted,
            from: self.id,
        };
        Reaction {
            state: self,
            sends: seq![Envelope { to: candidate, msg: response }],
            reply: None,
        }
    }

    /// Count a pre-vote while a round is on; with a quorum the real election
    /// starts.
    pub open spec fn on_pre_vote_response(self, granted: bool, from: u64) -> Reaction {
        if self.role != Role::Leader && self.pre_voting && granted && self.is_other(from) {
            let state = NodeState { pre_votes: self.pre_votes.insert(from), ..self };
            if state.pre_votes.len() + 1 >= self.quorum() {
                state.begin_election()
            } else {
                state.unchanged()
            }
        } else {
            self.unchanged()
        }
    }

    /// The answer to entries or a heartbeat.
    pub open spec fn append_response(self, success: bool, match_index: u64) -> Message {
        Message::AppendEntriesResponse { term: self.term, success, match_index, from: self.id }
    }

    /// Handle entries or a heartbeat from a leader. A stale leader is refused.
    /// Otherwise the node follows the leader, takes in the entries if they fit,
    /// and on success advances its commit index to the smaller of the leader's
    /// and the index of the last new entry.
    pub open spec fn on_append_entries(
        self,
        term: u64,
        leader: u64,
        prev_index: u64,
        prev_term: u64,
        entries: Seq<Entry>,
        leader_commit: u64,
        completed: nat,
    ) -> Reaction {
        let log = self.log.entries;
        if term < self.term {
            let response = self.append_response(false, last_index(log));
            Reaction {
                state: self,
                sends: seq![Envelope { to: leader, msg: response }],
                reply: None,
            }
        } else {
            let following = NodeState {
                role: Role::Follower,
                leader_id: Some(leader),
                pre_voting: false,
                ..self
            };
            if !prev_matches(log, prev_index, prev_term) {
                let response = self.append_response(false, last_index(log));
                Reaction {
                    state: following,
                    sends: seq![Envelope { to: leader, msg: response }],
                    reply: None,
                }
            } else {
                let new_log = merged(log, entries, completed);
                let stored = LogState { entries: new_log, ..self.log };
                if completed >= merge_ops(log, entries).len() {
                    let last_new = last_new_index(prev_index, entries);
                    let commit = min(leader_commit, min(last_new, last_index(new_log)));
                    let response = self.append_response(true, last_new);
                    Reaction {
                        state: NodeState { log: stored.committed_to(commit), ..following },
                        sends: seq![Envelope { to: leader, msg: response }],
                        reply: None,
                    }
                } else {
                    let response = self.append_response(false, last_index(new_log));
                    Reaction {
                        state: NodeState { log: stored, ..following },
                        sends: seq![Envelope { to: leader, msg: response }],
                        reply: None,
                    }
                }
            }
        }
    }

    /// The other members known to hold the entry at an index.
    pub open spec fn replicas(self, index: u64) -> Set<u64> {
        Set::new(
            |p: u64|
                self.is_other(p) && self.match_index.contains_key(p) && self.match_index[p]
                    >= index,
        )
    }

    /// Whether the leader may commit up to an index: the entry there is of its
    /// current term and a quorum, itself included, holds it.
    pub open spec fn committable(self, index: u64) -> bool {
        term_at(self.log.entries, index) == Some(self.term) && self.replicas(index).len() + 1
            >= self.quorum()
    }

    /// The highest committable index up to `index`, or the commit index if there
    /// is none above it.
    pub open spec fn highest_committable(self, index: u64) -> u64
        decreases index,
    {
        if index <= self.log.commit {
            self.log.commit
        } else if self.committable(index) {
            index
        } else {
            self.highest_committable((index - 1) as u64)
        }
    }

    /// Commit what a quorum holds.
    pub open spec fn advance_commit(self) -> NodeState {
        NodeState {
            log: LogState {
                commit: self.highest_committable(last_index(self.log.entries)),
                ..self.log
            },
            ..self
        }
    }

    /// Handle a follower's answer: on success in the leader's current term record how
    /// far it is known to match and commit what a quorum holds, on failure back up by
    /// one entry.
    pub open spec fn on_append_response(
        self,
        term: u64,
        success: bool,
        match_index: u64,
        from: u64,
    ) -> Reaction {
        if self.role == Role::Leader && self.is_other(from) && (success ==> term == self.term) {
            if success {
                let known: u64 = if self.match_index.contains_key(from) {
                    self.match_index[from]
                } else {
                    0
                };
                let matched: u64 = if match_index > known { match_index } else { known };
                NodeState {
                    match_index: self.match_index.insert(from, matched),
                    next_index: self.next_index.insert(from, (matched + 1) as u64),
                    ..self
                }.advance_commit().unchanged()
            } else {
                let next: u64 = if self.next_index.contains_key(from) {
                    self.next_index[from]
                } else {
                    1
                };
                if next > 1 {
                    NodeState {
                        next_index: self.next_index.insert(from, (next - 1) as u64),
                        ..self
                    }.unchanged()
                } else {
                    self.unchanged()
                }
            }
        } else {
            self.unchanged()
        }
    }

    /// Dispatch a message. A higher term makes the node step down first, except
    /// for a pre-vote request, which never changes the receiver's term.
    pub open spec fn on_message(self, msg: Message, completed: nat) -> Reaction {
        let s = if msg is PreVote {
            self
        } else {
            self.step_down(msg.term())
        };
        match msg {
            Message::RequestVote { term, candidate_id, last_log_index, last_log_term } =>
                s.on_request_vote(term, candidate_id, last_log_index, last_log_term),
            Message::RequestVoteResponse { term, vote_granted, from } => s.on_vote_response(
                term,
                vote_granted,
                from,
            ),
            Message::PreVote { term, candidate_id, last_log_index, last_log_term } => s.on_pre_vote(
                term,
                candidate_id,
                last_log_index,
                last_log_term,
            ),
            Message::PreVoteResponse { term, vote_granted, from } => s.on_pre_vote_response(
                vote_granted,
                from,
            ),
            Message::AppendEntries {
                term,
                leader_id,
                prev_log_index,
                prev_log_term,
                entries,
                leader_commit,
            } => s.on_append_entries(
                term,
                leader_id,
                prev_log_index,
                prev_log_term,
                entries,
                leader_commit,
                completed,
            ),
            Message::AppendEntriesResponse { term, success, match_index, from } =>
                s.on_append_response(term, success, match_index, from),
        }
    }

    /// The number of entries above the commit index.
    pub open spec fn uncommitted(self) -> u64 {
        let last = last_index(self.log.entries);
        if last < self.log.commit {
            0
        } else {
            (last - self.log.commit) as u64
        }
    }

    /// The entry that a proposal becomes.
    pub open spec fn proposed_entry(self, command: Seq<u8>) -> Entry {
        Entry {
            index: (last_index(self.log.entries) + 1) as u64,
            term: self.term,
            command,
        }
    }

    /// Handle a client proposal: refused unless the node leads and has room for
    /// it, otherwise appended and replicated at once. Where the leader alone is a
    /// quorum, the entry is committed at once.
    pub open spec fn on_propose(self, command: Seq<u8>, completed: nat, error: Seq<char>) -> Reaction {
        if self.role != Role::Leader {
            Reaction {
                reply: Some(Reply::NotLeader { leader: self.leader_id }),
                ..self.unchanged()
            }
        } else if self.uncommitted() >= self.max_uncommitted {
            Reaction {
                reply: Some(Reply::BackPressure { count: self.uncommitted() }),
                ..self.unchanged()
            }
        } else if completed >= 1 {
            let entry = self.proposed_entry(command);
            let appended = NodeState {
                log: LogState { entries: self.log.entries.push(entry), ..self.log },
                ..self
            };
            let state = if self.quorum() == 1 {
                appended.advance_commit()
            } else {
                appended
            };
            Reaction {
                state,
                sends: state.heartbeats(),
                reply: Some(Reply::Accepted { index: entry.index, term: entry.term }),
            }
        } else {
            Reaction {
                reply: Some(Reply::StorageFailure { error: "storage failure: "@ + error }),
                ..self.unchanged()
            }
        }
    }

    /// React to an event, of whose storage operations the first `completed`
    /// succeeded and the next failed with `error`.
    pub open spec fn react(self, event: Event, completed: nat, error: Seq<char>) -> Reaction {
        match event {
            Event::Receive(msg) => self.on_message(msg, completed),
            Event::ElectionTimeout => self.on_election_timeout(),
            Event::HeartbeatTick => if self.role == Role::Leader {
                Reaction { sends: self.heartbeats(), ..self.unchanged() }
            } else {
                self.unchanged()
            },
            Event::Propose(command) => self.on_propose(command, completed, error),
        }
    }

    /// The storage operations that an event asks for.
    pub open spec fn plan(self, event: Event) -> Seq<Op> {
        match event {
            Event::Receive(
                Message::AppendEntries { term, prev_log_index, prev_log_term, entries, .. },
            ) => if term >= self.term && prev_matches(
                self.log.entries,
                prev_log_index,
                prev_log_term,
            ) {
                merge_ops(self.log.entries, entries)
            } else {
                Seq::empty()
            },
            Event::Propose(command) => if self.role == Role::Leader && self.uncommitted()
                < self.max_uncommitted {
                seq![Op::Append(self.proposed_entry(command))]
            } else {
                Seq::empty()
            },
            _ => Seq::empty(),
        }
    }

    /// The counters that an election increments have room to grow.
    pub open spec fn election_has_room(self) -> bool {
        &&& self.term < u64::MAX
        &&& self.quorum() == 1 ==> last_index(self.log.entries) < u64::MAX
    }

    /// The counters that an event increments have room to grow.
    pub open spec fn has_room(self, event: Event) -> bool {
        match event {
            Event::ElectionTimeout => self.role != Role::Leader ==> self.election_has_room(),
            Event::Propose(_) => self.role == Role::Leader ==> last_index(self.log.entries)
                < u64::MAX,
            Event::Receive(Message::PreVoteResponse { .. }) => self.pre_voting
                ==> self.election_has_room(),
            Event::Receive(Message::RequestVoteResponse { .. }) => self.role == Role::Candidate
                ==> last_index(self.log.entries) < u64::MAX,
            Event::Receive(Message::AppendEntriesResponse { term, success, match_index, from }) =>
                success && self.role == Role::Leader && term == self.term ==> match_index
                    < u64::MAX,
            _ => true,
        }
    }

    /// Well-formedness: a known match always has a next index.
    pub open spec fn wf(self) -> bool {
        forall|p: u64| #[trigger]
            self.match_index.contains_key(p) ==> self.match_index[p] < u64::MAX
    }
}

// ---------------------------------------------------------------------------
// Executable node
// ---------------------------------------------------------------------------

/// A message and the peer that it is for.
#[derive(Debug)]
pub struct Outbound {
    /// The receiving node.
    pub to: u64,
    /// The message.
    pub msg: RaftMessage,
}

impl View for Outbound {
    type V = Envelope;

    open spec fn view(&self) -> Envelope {
        Envelope { to: self.to, msg: self.msg@ }
    }
}

/// The views of a sequence of outbound messages.
pub open spec fn envelopes(sends: Seq<Outbound>) -> Seq<Envelope> {
    Seq::new(sends.len(), |i: int| sends[i]@)
}

/// The result of a client proposal accepted by the leader.
#[derive(Debug)]
pub struct ProposalResponse {
    /// The log index assigned to the proposal.
    pub index: u64,
    /// The term in which the proposal was accepted.
    pub term: u64,
}

/// The view of an answer to a proposal.
pub open spec fn reply_view(reply: Result<ProposalResponse, RaftError>) -> Option<Reply> {
    match reply {
        Ok(p) => Some(Reply::Accepted { index: p.index, term: p.term }),
        Err(RaftError::NotLeader { leader }) => Some(Reply::NotLeader { leader }),
        Err(RaftError::BackPressure { count }) => Some(Reply::BackPressure { count }),
        Err(RaftError::StorageFailure(s)) => Some(Reply::StorageFailure { error: s@ }),
        Err(_) => None,
    }
}

/// Something that a node reacts to.
#[derive(Debug)]
pub enum NodeEvent {
    /// A message arrived from a peer.
    Receive(RaftMessage),
    /// The election timer expired.
    ElectionTimeout,
    /// The heartbeat timer ticked.
    HeartbeatTick,
    /// A client proposed a command.
    Propose(Vec<u8>),
}

impl View for NodeEvent {
    type V = Event;

    open spec fn view(&self) -> Event {
        match *self {
            NodeEvent::Receive(msg) => Event::Receive(msg@),
            NodeEvent::ElectionTimeout => Event::ElectionTimeout,
            NodeEvent::HeartbeatTick => Event::HeartbeatTick,
            NodeEvent::Propose(command) => Event::Propose(command@),
        }
    }
}

/// What the caller has to do after an event.
#[derive(Debug)]
pub struct NodeOutput {
    /// Messages to deliver.
    pub sends: Vec<Outbound>,
    /// The answer to the proposal, if the event was one.
    pub reply: Option<Result<ProposalResponse, RaftError>>,
    /// Whether to draw a new election timeout.
    pub reset_election_timer: bool,
}

/// A single node in a Raft cluster.
pub struct RaftNode {
    /// Cluster configuration.
    pub config: RaftConfig,
    /// Current term.
    pub current_term: u64,
    /// The node voted for in the current term, or `None`.
    pub voted_for: Option<u64>,
    /// Current role in the cluster.
    pub role: Role,
    /// The replicated log.
    pub log: RaftLog,
    /// The others that voted for this candidate in the current term.
    pub votes: HashSet<u64>,
    /// Whether a pre-vote round is on.
    pub pre_voting: bool,
    /// The others that granted the current pre-vote round.
    pub pre_votes: HashSet<u64>,
    /// For each peer: the next log index to send.
    pub next_index: HashMap<u64, u64>,
    /// For each peer: the highest log index known to be replicated.
    pub match_index: HashMap<u64, u64>,
    /// The last known leader, for client redirection.
    pub leader_id: Option<u64>,
}

impl View for RaftNode {
    type V = NodeState;

    open spec fn view(&self) -> NodeState {
        NodeState {
            id: self.config.node_id,
            peers: self.config.peers@,
            pre_vote: self.config.pre_vote_enabled,
            max_batch: self.config.max_entries_per_append as nat,
            max_uncommitted: self.config.max_uncommitted_entries,
            term: self.current_term,
            voted_for: self.voted_for,
            role: self.role,
            log: self.log@,
            votes: self.votes@,
            pre_voting: self.pre_voting,
            pre_votes: self.pre_votes@,
            next_index: self.next_index@,
            match_index: self.match_index@,
            leader_id: self.leader_id,
        }
    }
}

/// `gen_range` of `rand`'s thread-local generator over a half-open range: some number
/// in the range. The range must not be empty.
#[verifier::external_body]
fn random_between(min: u64, max: u64) -> (r: u64)
    requires
        min < max,
    ensures
        min <= r < max,
{
    rand::Rng::gen_range(&mut rand::thread_rng(), min..max)
}

impl RaftNode {
    /// Construct a new node: a follower in term 0.
    pub fn new(config: RaftConfig, log: RaftLog) -> (node: Self)
        ensures
            node.config == config,
            node@ == (NodeState {
                id: config.node_id,
                peers: config.peers@,
                pre_vote: config.pre_vote_enabled,
                max_batch: config.max_entries_per_append as nat,
                max_uncommitted: config.max_uncommitted_entries,
                term: 0,
                voted_for: None,
                role: Role::Follower,
                log: log@,
                votes: Set::empty(),
                pre_voting: false,
                pre_votes: Set::empty(),
                next_index: Map::empty(),
                match_index: Map::empty(),
                leader_id: None,
            }),
            node@.wf(),
    {
        RaftNode {
            config,
            current_term: 0,
            voted_for: None,
            role: Role::Follower,
            log,
            votes: HashSet::new(),
            pre_voting: false,
            pre_votes: HashSet::new(),
            next_index: HashMap::new(),
            match_index: HashMap::new(),
            leader_id: None,
        }
    }

    /// Return the current term.
    pub fn term(&self) -> (term: u64)
        ensures
            term == self@.term,
    {
        self.current_term
    }

    /// Return the current role.
    pub fn role(&self) -> (role: Role)
        ensures
            role == self@.role,
    {
        self.role
    }

    /// A random election timeout in milliseconds, from the configured range.
    pub fn random_election_timeout(&self) -> (ms: u64)
        requires
            self.config.election_timeout_min_ms < self.config.election_timeout_max_ms,
        ensures
            self.config.election_timeout_min_ms <= ms < self.config.election_timeout_max_ms,
    {
        random_between(self.config.election_timeout_min_ms, self.config.election_timeout_max_ms)
    }

    /// Return the node's ID.
    pub fn id(&self) -> (id: u64)
        ensures
            id == self@.id,
    {
        self.config.node_id
    }

    /// Set the current term.
    pub fn set_term(&mut self, term: u64)
        ensures
            final(self)@ == (NodeState { term, ..old(self)@ }),
            final(self).config == old(self).config,
    {
        self.current_term = term;
    }

    /// Step down to follower on discovering a higher term.
    pub fn maybe_step_down(&mut self, remote_term: u64) -> (stepped: bool)
        ensures
            final(self)@ == old(self)@.step_down(remote_term),
            final(self).config == old(self).config,
            stepped == (remote_term > old(self)@.term),
    {
        if remote_term > self.current_term {
            self.current_term = remote_term;
            self.role = Role::Follower;
            self.voted_for = None;
            self.pre_voting = false;
            true
        } else {
            false
        }
    }

    /// Whether a node is another member of the cluster.
    fn is_other(&self, node: u64) -> (b: bool)
        ensures
            b == self@.is_other(node),
    {
        node != self.config.node_id && self.config.is_peer(node)
    }

    /// The other members, in the order of the peer list.
    fn others(&self) -> (out: Vec<u64>)
        ensures
            out@ == self@.peers.filter(|p: u64| p != self@.id),
    {
        let ghost peers = self@.peers;
        let ghost id = self@.id;
        let ghost keep = |p: u64| p != id;
        let mut out: Vec<u64> = Vec::new();
        let mut i: usize = 0;
        reveal(Seq::filter);
        assert(peers.take(0) =~= Seq::empty());
        while i < self.config.peers.len()
            invariant
                i <= self.config.peers.len(),
                peers == self.config.peers@,
                id == self.config.node_id,
                keep == (|p: u64| p != id),
                out@ == peers.take(i as int).filter(keep),
            decreases self.config.peers.len() - i,
        {
            reveal(Seq::filter);
            assert(peers.take(i + 1).drop_last() =~= peers.take(i as int));
            let p: u64 = self.config.peers[i];
            if p != self.config.node_id {
                out.push(p);
            }
            i += 1;
        }
        assert(peers.take(i as int) =~= peers);
        out
    }

    /// The same message to every other member.
    fn broadcast(&self, msg: &RaftMessage) -> (out: Vec<Outbound>)
        ensures
            envelopes(out@) == self@.to_others(|p: u64| msg@),
    {
        let others = self.others();
        let mut out: Vec<Outbound> = Vec::new();
        let mut i: usize = 0;
        while i < others.len()
            invariant
                i <= others.len(),
                out.len() == i,
                forall|k: int|
                    0 <= k < i ==> (#[trigger] out[k])@ == (Envelope { to: others[k], msg: msg@ }),
            decreases others.len() - i,
        {
            out.push(Outbound { to: others[i], msg: msg.clone() });
            i += 1;
        }
        assert(envelopes(out@) =~= self@.to_others(|p: u64| msg@));
        out
    }

    /// A single message to one peer.
    fn single(to: u64, msg: RaftMessage) -> (out: Vec<Outbound>)
        ensures
            envelopes(out@) == seq![Envelope { to, msg: msg@ }],
    {
        let mut out: Vec<Outbound> = Vec::new();
        out.push(Outbound { to, msg });
        assert(envelopes(out@) =~= seq![Envelope { to, msg: msg@ }]);
        out
    }

    /// No message at all.
    fn silence() -> (out: Vec<Outbound>)
        ensures
            envelopes(out@) == Seq::<Envelope>::empty(),
    {
        let out: Vec<Outbound> = Vec::new();
        assert(envelopes(out@) =~= Seq::empty());
        out
    }

    /// Whether a log with the given last entry is at least as up-to-date.
    fn accepts_log(&self, index: u64, term: u64) -> (b: bool)
        ensures
            b == self@.accepts_log(index, term),
    {
        let own_term: u64 = self.log.last_term();
        term > own_term || (term == own_term && index >= self.log.last_index())
    }

    /// Start a real election.
    fn begin_election(&mut self) -> (out: Vec<Outbound>)
        requires
            old(self)@.election_has_room(),
        ensures
            final(self)@ == old(self)@.begin_election().state,
            final(self).config == old(self).config,
            envelopes(out@) == old(self)@.begin_election().sends,
    {
        self.current_term = self.current_term + 1;
        self.role = Role::Candidate;
        self.voted_for = Some(self.config.node_id);
        self.votes = HashSet::new();
        self.pre_voting = false;
        let ask = RaftMessage::RequestVote {
            term: self.current_term,
            candidate_id: self.config.node_id,
            last_log_index: self.log.last_index(),
            last_log_term: self.log.last_term(),
        };
        let mut out = self.broadcast(&ask);
        assert(envelopes(out@) =~= old(self)@.vote_requests());
        assert(self@ == old(self)@.candidacy());
        if self.config.quorum_size() == 1 {
            let ghost asked = out@;
            let mut won = self.become_leader();
            let ghost beats = won@;
            out.append(&mut won);
            assert(envelopes(out@) =~= envelopes(asked) + envelopes(beats));
        }
        out
    }

    /// Start a new election round: a pre-vote round if it is enabled and there is
    /// one to win, otherwise a real election.
    pub fn start_election(&mut self) -> (out: Vec<Outbound>)
        requires
            old(self)@.role != Role::Leader,
            old(self)@.election_has_room(),
        ensures
            final(self)@ == old(self)@.on_election_timeout().state,
            final(self).config == old(self).config,
            envelopes(out@) == old(self)@.on_election_timeout().sends,
    {
        if self.config.pre_vote_enabled && self.config.quorum_size() > 1 {
            self.pre_voting = true;
            self.pre_votes = HashSet::new();
            let ask = RaftMessage::PreVote {
                term: self.current_term + 1,
                candidate_id: self.config.node_id,
                last_log_index: self.log.last_index(),
                last_log_term: self.log.last_term(),
            };
            let out = self.broadcast(&ask);
            assert(envelopes(out@) =~= old(self)@.on_election_timeout().sends);
            out
        } else {
            self.begin_election()
        }
    }

    /// The replication message for a peer.
    fn append_message(&self, peer: u64) -> (msg: RaftMessage)
        ensures
            msg@ == self@.append_message(peer),
    {
        let next: u64 = match self.next_index.get(&peer) {
            Some(n) => *n,
            None => 1,
        };
        let prev_log_index: u64 = if next == 0 { 0 } else { next - 1 };
        let prev_log_term: u64 = match self.log.term_at(prev_log_index) {
            Some(t) => t,
            None => 0,
        };
        let last: u64 = self.log.last_index();
        let batch: usize = self.config.max_entries_per_append;
        let entries: Vec<LogEntry> = if next > last || batch == 0 {
            Vec::new()
        } else if (batch - 1) as u64 >= last - next {
            self.log.entries_range(next, last)
        } else {
            self.log.entries_range(next, next + (batch - 1) as u64)
        };
        proof {
            let log = self@.log.entries;
            if next > last || batch == 0 {
                assert(entry_views(entries@) =~= Seq::empty());
            }
        }
        RaftMessage::AppendEntries {
            term: self.current_term,
            leader_id: self.config.node_id,
            prev_log_index,
            prev_log_term,
            entries,
            leader_commit: self.log.commit_index(),
        }
    }

    /// Replicate to all peers; an empty batch is a plain heartbeat.
    pub fn send_heartbeats(&self) -> (out: Vec<Outbound>)
        ensures
            envelopes(out@) == self@.heartbeats(),
    {
        let others = self.others();
        let mut out: Vec<Outbound> = Vec::new();
        let mut i: usize = 0;
        while i < others.len()
            invariant
                i <= others.len(),
                out.len() == i,
                forall|k: int|
                    0 <= k < i ==> (#[trigger] out[k])@ == (Envelope {
                        to: others[k],
                        msg: self@.append_message(others[k]),
                    }),
            decreases others.len() - i,
        {
            out.push(Outbound { to: others[i], msg: self.append_message(others[i]) });
            i += 1;
        }
        assert(envelopes(out@) =~= self@.heartbeats());
        out
    }

    /// Become the leader.
    fn become_leader(&mut self) -> (out: Vec<Outbound>)
        requires
            last_index(old(self)@.log.entries) < u64::MAX,
        ensures
            final(self)@ == old(self)@.become_leader().state,
            final(self).config == old(self).config,
            envelopes(out@) == old(self)@.become_leader().sends,
    {
        let ghost before = self@;
        let others = self.others();
        let next: u64 = self.log.last_index() + 1;
        self.role = Role::Leader;
        self.leader_id = Some(self.config.node_id);
        self.pre_voting = false;
        let mut next_index: HashMap<u64, u64> = HashMap::new();
        let mut match_index: HashMap<u64, u64> = HashMap::new();
        let mut i: usize = 0;
        while i < others.len()
            invariant
                i <= others.len(),
                forall|p: u64| #[trigger]
                    next_index@.contains_key(p) <==> others@.take(i as int).contains(p),
                forall|p: u64| #[trigger]
                    match_index@.contains_key(p) <==> others@.take(i as int).contains(p),
                forall|p: u64| #[trigger] next_index@.contains_key(p) ==> next_index@[p] == next,
                forall|p: u64| #[trigger] match_index@.contains_key(p) ==> match_index@[p] == 0,
            decreases others.len() - i,
        {
            let p: u64 = others[i];
            next_index.insert(p, next);
            match_index.insert(p, 0);
            proof {
                let a = others@.take(i as int);
                let b = others@.take(i + 1);
                assert(b =~= a.push(p));
                assert forall|q: u64| b.contains(q) <==> (a.contains(q) || q == p) by {
                    if a.contains(q) {
                        let k = choose|k: int| 0 <= k < a.len() && a[k] == q;
                        assert(b[k] == q);
                    }
                    assert(b[i as int] == p);
                }
            }
            i += 1;
        }
        proof {
            assert(others@.take(i as int) =~= others@);
            let keep = |p: u64| p != before.id;
            assert forall|p: u64| others@.contains(p) <==> before.is_other(p) by {
                if before.is_other(p) {
                    let k = choose|k: int| 0 <= k < before.peers.len() && before.peers[k] == p;
                    assert(keep(before.peers[k]));
                    assert(before.peers.filter(keep).contains(before.peers[k]));
                }
                if others@.contains(p) {
                    let k = choose|k: int| 0 <= k < others@.len() && others@[k] == p;
                    assert(keep(others@[k]));
                    before.peers.lemma_filter_contains_rev(keep, p);
                }
            }
            let want = before.become_leader().state;
            assert(next_index@ =~= want.next_index);
            assert(match_index@ =~= want.match_index);
        }
        self.next_index = next_index;
        self.match_index = match_index;
        self.send_heartbeats()
    }

    /// Handle a `RequestVote`.
    pub fn handle_request_vote(
        &mut self,
        term: u64,
        candidate_id: u64,
        last_log_index: u64,
        last_log_term: u64,
    ) -> (out: Vec<Outbound>)
        ensures
            ({
                let want = old(self)@.on_request_vote(
                    term,
                    candidate_id,
                    last_log_index,
                    last_log_term,
                );
                final(self)@ == want.state && envelopes(out@) == want.sends
            }),
            final(self).config == old(self).config,
    {
        let can_vote: bool = match self.voted_for {
            None => true,
            Some(v) => v == candidate_id,
        };
        let vote_granted: bool = term >= self.current_term && can_vote && self.accepts_log(
            last_log_index,
            last_log_term,
        );
        if vote_granted {
            self.voted_for = Some(candidate_id);
            self.role = Role::Follower;
            self.pre_voting = false;
        }
        Self::single(
            candidate_id,
            RaftMessage::RequestVoteResponse {
                term: self.current_term,
                vote_granted,
                from: self.config.node_id,
            },
        )
    }

    /// Handle a `RequestVoteResponse`.
    fn handle_vote_response(&mut self, term: u64, vote_granted: bool, from: u64) -> (out: Vec<
        Outbound,
    >)
        requires
            old(self)@.role == Role::Candidate ==> last_index(old(self)@.log.entries) < u64::MAX,
        ensures
            ({
                let want = old(self)@.on_vote_response(term, vote_granted, from);
                final(self)@ == want.state && envelopes(out@) == want.sends
            }),
            final(self).config == old(self).config,
    {
        if self.role == Role::Candidate && vote_granted && term == self.current_term
            && self.is_other(from) {
            self.votes.insert(from);
            // Compared without adding the own vote, which could not fit.
            if self.votes.len() >= self.config.quorum_size() - 1 {
                return self.become_leader();
            }
        }
        Self::silence()
    }

    /// Handle a `PreVote`.
    fn handle_pre_vote(
        &self,
        term: u64,
        candidate_id: u64,
        last_log_index: u64,
        last_log_term: u64,
    ) -> (out: Vec<Outbound>)
        ensures
            envelopes(out@) == self@.on_pre_vote(
                term,
                candidate_id,
                last_log_index,
                last_log_term,
            ).sends,
    {
        let vote_granted: bool = term >= self.current_term && self.accepts_log(
            last_log_index,
            last_log_term,
        );
        Self::single(
            candidate_id,
            RaftMessage::PreVoteResponse {
                term: self.current_term,
                vote_granted,
                from: self.config.node_id,
            },
        )
    }

    /// Handle a `PreVoteResponse`.
    fn handle_pre_vote_response(&mut self, vote_granted: bool, from: u64) -> (out: Vec<Outbound>)
        requires
            old(self)@.pre_voting ==> old(self)@.election_has_room(),
        ensures
            ({
                let want = old(self)@.on_pre_vote_response(vote_granted, from);
                final(self)@ == want.state && envelopes(out@) == want.sends
            }),
            final(self).config == old(self).config,
    {
        if self.role != Role::Leader && self.pre_voting && vote_granted && self.is_other(from) {
            self.pre_votes.insert(from);
            if self.pre_votes.len() >= self.config.quorum_size() - 1 {
                return self.begin_election();
            }
        }
        Self::silence()
    }

    /// The answer to an `AppendEntries`.
    fn append_response(&self, success: bool, match_index: u64) -> (msg: RaftMessage)
        ensures
            msg@ == self@.append_response(success, match_index),
    {
        RaftMessage::AppendEntriesResponse {
            term: self.current_term,
            success,
            match_index,
            from: self.config.node_id,
        }
    }

    /// Handle an `AppendEntries`.
    fn handle_append_entries(
        &mut self,
        term: u64,
        leader_id: u64,
        prev_log_index: u64,
        prev_log_term: u64,
        entries: &Vec<LogEntry>,
        leader_commit: u64,
        report: &StorageReport,
    ) -> (out: Vec<Outbound>)
        ensures
            ({
                let want = old(self)@.on_append_entries(
                    term,
                    leader_id,
                    prev_log_index,
                    prev_log_term,
                    entry_views(entries@),
                    leader_commit,
                    report.completed as nat,
                );
                final(self)@ == want.state && envelopes(out@) == want.sends
            }),
            final(self).config == old(self).config,
    {
        if term < self.current_term {
            let response = self.append_response(false, self.log.last_index());
            return Self::single(leader_id, response);
        }
        self.role = Role::Follower;
        self.leader_id = Some(leader_id);
        self.pre_voting = false;
        match self.log.append_entries(prev_log_index, prev_log_term, entries, report) {
            Ok(()) => {
                let n: usize = entries.len();
                let last_new: u64 = if n == 0 { prev_log_index } else { entries[n - 1].index };
                let last: u64 = self.log.last_index();
                let reach: u64 = if last_new < last { last_new } else { last };
                let new_commit: u64 = if leader_commit < reach { leader_commit } else { reach };
                self.log.set_commit_index(new_commit);
                let response = self.append_response(true, last_new);
                Self::single(leader_id, response)
            },
            Err(_) => {
                let response = self.append_response(false, self.log.last_index());
                Self::single(leader_id, response)
            },
        }
    }

    /// The number of other members known to hold the entry at an index.
    fn replica_count(&self, index: u64) -> (n: usize)
        ensures
            n == self@.replicas(index).len(),
    {
        let ghost state = self@;
        let mut held: HashSet<u64> = HashSet::new();
        let mut i: usize = 0;
        while i < self.config.peers.len()
            invariant
                i <= self.config.peers.len(),
                state == self@,
                forall|p: u64| #[trigger]
                    held@.contains(p) <==> state.replicas(index).contains(p)
                        && state.peers.take(i as int).contains(p),
            decreases self.config.peers.len() - i,
        {
            let p: u64 = self.config.peers[i];
            let ghost a = state.peers.take(i as int);
            let ghost b = state.peers.take(i + 1);
            proof {
                assert(b =~= a.push(p));
                assert forall|q: u64| b.contains(q) <==> (a.contains(q) || q == p) by {
                    if a.contains(q) {
                        let k = choose|k: int| 0 <= k < a.len() && a[k] == q;
                        assert(b[k] == q);
                    }
                    assert(b[i as int] == p);
                }
                assert(state.peers.contains(p));
            }
            if p != self.config.node_id {
                match self.match_index.get(&p) {
                    Some(m) => {
                        if *m >= index {
                            held.insert(p);
                        }
                    },
                    None => {},
                }
            }
            i += 1;
        }
        assert(state.peers.take(i as int) =~= state.peers);
        assert(held@ =~= state.replicas(index));
        held.len()
    }

    /// Advance the commit index to the highest entry of the current term that a
    /// quorum holds.
    pub fn try_advance_commit_index(&mut self)
        ensures
            final(self)@ == old(self)@.advance_commit(),
            final(self).config == old(self).config,
    {
        let ghost state = self@;
        let last: u64 = self.log.last_index();
        let commit: u64 = self.log.commit_index();
        let mut n: u64 = last;
        while n > commit
            invariant
                *self == *old(self),
                state == self@,
                commit == state.log.commit,
                last == last_index(state.log.entries),
                n <= last,
                state.highest_committable(last) == state.highest_committable(n),
            decreases n,
        {
            let current: bool = match self.log.term_at(n) {
                Some(t) => t == self.current_term,
                None => false,
            };
            if current && self.replica_count(n) >= self.config.quorum_size() - 1 {
                self.log.set_commit_index(n);
                return;
            }
            n = n - 1;
        }
    }

    /// Handle an `AppendEntriesResponse`.
    fn handle_append_entries_response(
        &mut self,
        term: u64,
        success: bool,
        match_index: u64,
        from: u64,
    )
        requires
            old(self)@.wf(),
            success && old(self)@.role == Role::Leader && term == old(self)@.term ==> match_index
                < u64::MAX,
        ensures
            final(self)@ == old(self)@.on_append_response(term, success, match_index, from).state,
            final(self)@.wf(),
            final(self).config == old(self).config,
    {
        if self.role != Role::Leader || !self.is_other(from) {
            return;
        }
        if success && term != self.current_term {
            return;
        }
        if success {
            let known: u64 = match self.match_index.get(&from) {
                Some(m) => *m,
                None => 0,
            };
            let matched: u64 = if match_index > known { match_index } else { known };
            self.match_index.insert(from, matched);
            self.next_index.insert(from, matched + 1);
            self.try_advance_commit_index();
        } else {
            let next: u64 = match self.next_index.get(&from) {
                Some(n) => *n,
                None => 1,
            };
            if next > 1 {
                self.next_index.insert(from, next - 1);
            }
        }
    }

    /// Dispatch a message from a peer.
    pub fn handle_message(&mut self, msg: RaftMessage, report: &StorageReport) -> (out: Vec<
        Outbound,
    >)
        requires
            old(self)@.wf(),
            old(self)@.has_room(Event::Receive(msg@)),
        ensures
            ({
                let want = old(self)@.on_message(msg@, report.completed as nat);
                final(self)@ == want.state && envelopes(out@) == want.sends
            }),
            final(self)@.wf(),
            final(self).config == old(self).config,
    {
        match msg {
            RaftMessage::RequestVote { term, candidate_id, last_log_index, last_log_term } => {
                self.maybe_step_down(term);
                self.handle_request_vote(term, candidate_id, last_log_index, last_log_term)
            },
            RaftMessage::RequestVoteResponse { term, vote_granted, from } => {
                self.maybe_step_down(term);
                self.handle_vote_response(term, vote_granted, from)
            },
            RaftMessage::PreVote { term, candidate_id, last_log_index, last_log_term } => {
                self.handle_pre_vote(term, candidate_id, last_log_index, last_log_term)
            },
            RaftMessage::PreVoteResponse { term, vote_granted, from } => {
                self.maybe_step_down(term);
                self.handle_pre_vote_response(vote_granted, from)
            },
            RaftMessage::AppendEntries {
                term,
                leader_id,
                prev_log_index,
                prev_log_term,
                entries,
                leader_commit,
            } => {
                self.maybe_step_down(term);
                self.handle_append_entries(
                    term,
                    leader_id,
                    prev_log_index,
                    prev_log_term,
                    &entries,
                    leader_commit,
                    report,
                )
            },
            RaftMessage::AppendEntriesResponse { term, success, match_index, from } => {
                self.maybe_step_down(term);
                self.handle_append_entries_response(term, success, match_index, from);
                Self::silence()
            },
        }
    }

    /// The number of entries above the commit index.
    fn uncommitted(&self) -> (n: u64)
        ensures
            n == self@.uncommitted(),
    {
        self.log.last_index().saturating_sub(self.log.commit_index())
    }

    /// Handle a client proposal.
    pub fn handle_proposal(&mut self, command: Vec<u8>, report: &StorageReport) -> (r: (
        Vec<Outbound>,
        Result<ProposalResponse, RaftError>,
    ))
        requires
            old(self)@.has_room(Event::Propose(command@)),
        ensures
            ({
                let want = old(self)@.on_propose(
                    command@,
                    report.completed as nat,
                    report.error@,
                );
                &&& final(self)@ == want.state
                &&& envelopes(r.0@) == want.sends
                &&& reply_view(r.1) == want.reply
            }),
            final(self).config == old(self).config,
    {
        if self.role != Role::Leader {
            return (Self::silence(), Err(RaftError::NotLeader { leader: self.leader_id }));
        }
        let uncommitted: u64 = self.uncommitted();
        if uncommitted >= self.config.max_uncommitted_entries {
            return (Self::silence(), Err(RaftError::BackPressure { count: uncommitted }));
        }
        let term: u64 = self.current_term;
        match self.log.append(term, command, report) {
            Ok(entry) => {
                if self.config.quorum_size() == 1 {
                    self.try_advance_commit_index();
                }
                let sends = self.send_heartbeats();
                (sends, Ok(ProposalResponse { index: entry.index, term: entry.term }))
            },
            Err(e) => (Self::silence(), Err(RaftError::StorageFailure(e.to_string()))),
        }
    }

    /// Whether the counters that an election increments have room to grow.
    fn election_has_room(&self) -> (b: bool)
        ensures
            b == self@.election_has_room(),
    {
        self.current_term < u64::MAX && (self.config.quorum_size() != 1 || self.log.last_index()
            < u64::MAX)
    }

    /// Whether the counters that an event increments have room to grow.
    pub fn has_room(&self, event: &NodeEvent) -> (b: bool)
        ensures
            b == self@.has_room(event@),
    {
        match event {
            NodeEvent::ElectionTimeout => self.role == Role::Leader || self.election_has_room(),
            NodeEvent::Propose(_) => self.role != Role::Leader || self.log.last_index() < u64::MAX,
            NodeEvent::Receive(RaftMessage::PreVoteResponse { .. }) => !self.pre_voting
                || self.election_has_room(),
            NodeEvent::Receive(RaftMessage::RequestVoteResponse { .. }) => self.role
                != Role::Candidate || self.log.last_index() < u64::MAX,
            NodeEvent::Receive(
                RaftMessage::AppendEntriesResponse { term, success, match_index, .. },
            ) => !*success || self.role != Role::Leader || *term != self.current_term
                || *match_index < u64::MAX,
            _ => true,
        }
    }

    /// The storage operations that an event asks for, to be carried out in order
    /// before the event is handled.
    pub fn storage_plan(&self, event: &NodeEvent) -> (ops: Vec<LogOp>)
        requires
            self@.has_room(event@),
        ensures
            op_views(ops@) == self@.plan(event@),
    {
        match event {
            NodeEvent::Receive(
                RaftMessage::AppendEntries { term, prev_log_index, prev_log_term, entries, .. },
            ) => {
                if *term >= self.current_term {
                    match self.log.plan_append_entries(*prev_log_index, *prev_log_term, entries) {
                        Ok(ops) => return ops,
                        Err(_) => {},
                    }
                }
            },
            NodeEvent::Propose(command) => {
                if self.role == Role::Leader && self.uncommitted()
                    < self.config.max_uncommitted_entries {
                    let copy: Vec<u8> = command.clone();
                    assert(copy@ =~= command@);
                    let entry = self.log.next_entry(self.current_term, copy);
                    let mut ops: Vec<LogOp> = Vec::new();
                    ops.push(LogOp::Append(entry));
                    assert(op_views(ops@) =~= seq![Op::Append(entry@)]);
                    return ops;
                }
            },
            _ => {},
        }
        let ops: Vec<LogOp> = Vec::new();
        assert(op_views(ops@) =~= Seq::empty());
        ops
    }

    /// React to an event, on whose storage operations `report` reports. A message to a
    /// node that has an election timer, or that makes a leader step down, draws a new
    /// timeout, and so does an expired timer.
    pub fn handle_event(&mut self, event: NodeEvent, report: &StorageReport) -> (out: NodeOutput)
        requires
            old(self)@.wf(),
            old(self)@.has_room(event@),
        ensures
            ({
                let want = old(self)@.react(event@, report.completed as nat, report.error@);
                &&& final(self)@ == want.state
                &&& envelopes(out.sends@) == want.sends
                &&& want.reply == (match out.reply {
                    Some(r) => reply_view(r),
                    None => None,
                })
            }),
            out.reply is Some <==> event is Propose,
            out.reset_election_timer <==> (event is Receive && (old(self)@.role != Role::Leader
                || final(self)@.role != Role::Leader)) || (event is ElectionTimeout && old(
                self,
            )@.role != Role::Leader),
            final(self)@.wf(),
            final(self).config == old(self).config,
    {
        let timed: bool = self.role != Role::Leader;
        match event {
            NodeEvent::Receive(msg) => {
                let sends = self.handle_message(msg, report);
                let reset_election_timer: bool = timed || self.role != Role::Leader;
                NodeOutput { sends, reply: None, reset_election_timer }
            },
            NodeEvent::ElectionTimeout => {
                let sends = if timed {
                    self.start_election()
                } else {
                    Self::silence()
                };
                NodeOutput { sends, reply: None, reset_election_timer: timed }
            },
            NodeEvent::HeartbeatTick => {
                let sends = if timed {
                    Self::silence()
                } else {
                    self.send_heartbeats()
                };
                NodeOutput { sends, reply: None, reset_election_timer: false }
            },
            NodeEvent::Propose(command) => {
                let (sends, reply) = self.handle_proposal(command, report);
                NodeOutput { sends, reply: Some(reply), reset_election_timer: false }
            },
        }
    }

    /// Apply the committed entries that have not been applied yet, in log order,
    /// until the state machine refuses one.
    pub fn apply_committed_entries<M: StateMachine>(&mut self, machine: &mut M)
        ensures
            ({
                let entries = old(self)@.log.unapplied();
                let n = accepted_count::<M>(old(machine).state(), entries);
                &&& final(machine).state() == state_after::<M>(
                    old(machine).state(),
                    entries.take(n as int),
                )
                &&& final(self)@ == (NodeState {
                    log: LogState {
                        applied: if n == 0 {
                            old(self)@.log.applied
                        } else {
                            entries[n - 1].index
                        },
                        ..old(self)@.log
                    },
                    ..old(self)@
                })
            }),
            final(self).config == old(self).config,
    {
        let entries = self.log.unapplied_entries();
        let ghost es = entry_views(entries@);
        let ghost start = machine.state();
        let mut i: usize = 0;
        assert(es.skip(0) =~= es);
        assert(es.take(0) =~= Seq::empty());
        while i < entries.len()
            invariant
                i <= entries.len(),
                es == entry_views(entries@),
                machine.state() == state_after::<M>(start, es.take(i as int)),
                accepted_count::<M>(start, es) == i + accepted_count::<M>(
                    machine.state(),
                    es.skip(i as int),
                ),
                start == old(machine).state(),
                es == old(self)@.log.unapplied(),
                self@ == (NodeState {
                    log: LogState {
                        applied: if i == 0 {
                            old(self)@.log.applied
                        } else {
                            es[i - 1].index
                        },
                        ..old(self)@.log
                    },
                    ..old(self)@
                }),
                self.config == old(self).config,
            decreases entries.len() - i,
        {
            let ghost before = machine.state();
            assert(es.skip(i as int)[0] == es[i as int]);
            assert(es.skip(i as int).drop_first() =~= es.skip(i + 1));
            match machine.apply(&entries[i]) {
                Ok(_) => {
                    self.log.set_last_applied(entries[i].index);
                    proof {
                        assert(es.take(i + 1) =~= es.take(i as int).push(es[i as int]));
                        applied_last::<M>(start, es.take(i as int), es[i as int]);
                    }
                },
                Err(_) => {
                    return;
                },
            }
            i += 1;
        }
        assert(es.skip(i as int) =~= Seq::empty());
        assert(es.take(i as int) =~= es);
    }
}

proof fn applied_last<M: StateMachine>(s: M::State, entries: Seq<Entry>, last: Entry)
    ensures
        state_after::<M>(s, entries.push(last)) == M::applied(state_after::<M>(s, entries), last),
    decreases entries.len(),
{
    let all = entries.push(last);
    if entries.len() == 0 {
        assert(all.drop_first() =~= Seq::empty());
        assert(all[0] == last);
        assert(state_after::<M>(M::applied(s, last), all.drop_first()) == M::applied(s, last));
    } else {
        assert(all[0] == entries[0]);
        applied_last::<M>(M::applied(s, entries[0]), entries.drop_first(), last);
        assert(entries.push(last).drop_first() =~= entries.drop_first().push(last));
    }
}

// ---------------------------------------------------------------------------
// Properties of a single node
// ---------------------------------------------------------------------------

/// Terms never go back, and within a term a vote that was cast stays.
pub proof fn terms_and_votes_are_stable(
    s: NodeState,
    event: Event,
    completed: nat,
    error: Seq<char>,
)
    requires
        s.has_room(event),
    ensures
        ({
            let r = s.react(event, completed, error).state;
            &&& r.term >= s.term
            &&& r.term == s.term && s.voted_for is Some ==> r.voted_for == s.voted_for
        }),
{
}

/// The node after a run of events, each with how many of its storage operations
/// succeeded and what the next failed with.
pub open spec fn after_events(s: NodeState, events: Seq<(Event, nat, Seq<char>)>) -> NodeState
    decreases events.len(),
{
    if events.len() == 0 {
        s
    } else {
        let e = events.last();
        after_events(s, events.drop_last()).react(e.0, e.1, e.2).state
    }
}

/// The counters have room for every event of a run.
pub open spec fn room_for(s: NodeState, events: Seq<(Event, nat, Seq<char>)>) -> bool
    decreases events.len(),
{
    events.len() > 0 ==> room_for(s, events.drop_last()) && after_events(
        s,
        events.drop_last(),
    ).has_room(events.last().0)
}

proof fn votes_last(s: NodeState, events: Seq<(Event, nat, Seq<char>)>)
    requires
        room_for(s, events),
        s.voted_for is Some,
    ensures
        after_events(s, events).term >= s.term,
        after_events(s, events).term == s.term ==> after_events(s, events).voted_for
            == s.voted_for,
        after_events(s, events).id == s.id,
    decreases events.len(),
{
    if events.len() > 0 {
        let before = after_events(s, events.drop_last());
        let e = events.last();
        votes_last(s, events.drop_last());
        terms_and_votes_are_stable(before, e.0, e.1, e.2);
    }
}

/// At most one candidate per term gets a node's vote: after it voted for `a`, for as
/// long as its term stays, whatever else happens, a request of that term by `b` is
/// refused, however up-to-date the log of `b` is, and the vote for `a` stays.
pub proof fn one_vote_per_term(
    s: NodeState,
    a: u64,
    a_index: u64,
    a_log_term: u64,
    events: Seq<(Event, nat, Seq<char>)>,
    b: u64,
    b_index: u64,
    b_log_term: u64,
    completed: nat,
)
    requires
        s.grants_vote(s.term, a, a_index, a_log_term),
        a != b,
        room_for(s.on_request_vote(s.term, a, a_index, a_log_term).state, events),
        after_events(s.on_request_vote(s.term, a, a_index, a_log_term).state, events).term
            == s.term,
    ensures
        ({
            let now = after_events(
                s.on_request_vote(s.term, a, a_index, a_log_term).state,
                events,
            );
            let refused = Envelope {
                to: b,
                msg: Message::RequestVoteResponse {
                    term: s.term,
                    vote_granted: false,
                    from: s.id,
                },
            };
            let request = Message::RequestVote {
                term: s.term,
                candidate_id: b,
                last_log_index: b_index,
                last_log_term: b_log_term,
            };
            let r = now.on_request_vote(s.term, b, b_index, b_log_term);
            &&& now.voted_for == Some(a)
            &&& r.state == now
            &&& r.sends == seq![refused]
            &&& now.on_message(request, completed) == r
        }),
{
    votes_last(s.on_request_vote(s.term, a, a_index, a_log_term).state, events);
}

/// The commit index never goes back.
pub proof fn commit_index_is_monotonic(
    s: NodeState,
    event: Event,
    completed: nat,
    error: Seq<char>,
)
    ensures
        s.react(event, completed, error).state.log.commit >= s.log.commit,
{
    match event {
        Event::Receive(Message::AppendEntriesResponse { term, success, match_index, from }) => {
            let d = s.step_down(term);
            let known: u64 = if d.match_index.contains_key(from) { d.match_index[from] } else { 0 };
            let matched: u64 = if match_index > known { match_index } else { known };
            let t = NodeState {
                match_index: d.match_index.insert(from, matched),
                next_index: d.next_index.insert(from, (matched + 1) as u64),
                ..d
            };
            commit_not_lowered(t, last_index(t.log.entries));
        },
        Event::Propose(command) => {
            let t = NodeState {
                log: LogState {
                    entries: s.log.entries.push(s.proposed_entry(command)),
                    ..s.log
                },
                ..s
            };
            commit_not_lowered(t, last_index(t.log.entries));
        },
        _ => {},
    }
}

proof fn commit_not_lowered(s: NodeState, n: u64)
    ensures
        s.highest_committable(n) >= s.log.commit,
    decreases n,
{
    if n > s.log.commit && !s.committable(n) {
        commit_not_lowered(s, (n - 1) as u64);
    }
}

/// A message of a higher term makes the receiver a follower of that term, unless
/// it is a pre-vote request; that leaves the receiver as it is.
pub proof fn higher_terms_win(s: NodeState, msg: Message, completed: nat)
    requires
        msg.term() > s.term,
    ensures
        ({
            let r = s.on_message(msg, completed).state;
            if msg is PreVote {
                r == s
            } else {
                r.term == msg.term() && r.role == Role::Follower
            }
        }),
{
}

/// A cluster of one elects its member as soon as the election timer expires, and what
/// its leader takes in is committed at once.
pub proof fn a_lone_member_leads_and_commits(
    s: NodeState,
    completed: nat,
    error: Seq<char>,
    command: Seq<u8>,
)
    requires
        s.peers == seq![s.id],
        contiguous(s.log.entries),
        s.log.commit <= s.log.entries.len(),
        last_index(s.log.entries) < u64::MAX,
    ensures
        s.role != Role::Leader && s.term < u64::MAX ==> {
            let r = s.react(Event::ElectionTimeout, completed, error).state;
            r.role == Role::Leader && r.term == s.term + 1 && r.leader_id == Some(s.id)
        },
        s.role == Role::Leader && s.uncommitted() < s.max_uncommitted && completed >= 1 ==> {
            let r = s.react(Event::Propose(command), completed, error);
            &&& r.reply == Some(Reply::Accepted { index: r.state.log.commit, term: s.term })
            &&& r.state.log.commit == r.state.log.entries.len() == s.log.entries.len() + 1
        },
{
    let a = s.log.entries;
    let b = a.push(s.proposed_entry(command));
    contiguous_lookup(a, 0);
    if a.len() > 0 {
        assert(a[0].index == 1);
    }
    assert(contiguous(b));
    let t = NodeState { log: LogState { entries: b, ..s.log }, ..s };
    let last = last_index(b);
    assert(last == a.len() + 1);
    contiguous_lookup(b, last);
    assert(t.committable(last));
    assert(t.highest_committable(last) == last);
}

/// A leader commits only entries of its own term that a quorum holds.
pub proof fn leaders_commit_by_quorum(s: NodeState)
    ensures
        ({
            let r = s.advance_commit();
            r.log.commit == s.log.commit || s.committable(r.log.commit)
        }),
{
    quorum_behind(s, last_index(s.log.entries));
}

proof fn quorum_behind(s: NodeState, n: u64)
    ensures
        ({
            let h = s.highest_committable(n);
            h == s.log.commit || s.committable(h)
        }),
    decreases n,
{
    if n > s.log.commit && !s.committable(n) {
        quorum_behind(s, (n - 1) as u64);
    }
}

/// Entries are applied in log order, each exactly once: what is due for
/// application are the entries after the last applied one up to the commit index,
/// and once the first `n` of them have been applied the others remain.
pub proof fn entries_are_applied_once(log: LogState, n: int)
    requires
        contiguous(log.entries),
        log.applied <= log.commit <= log.entries.len(),
        0 < n <= log.unapplied().len(),
    ensures
        log.unapplied() == log.entries.subrange(log.applied as int, log.commit as int),
        ({
            let later = LogState { applied: log.unapplied()[n - 1].index, ..log };
            later.unapplied() == log.unapplied().skip(n)
        }),
{
    let es = log.entries;
    assert(es[0].index == 1);
    let due = log.unapplied();
    assert(due =~= es.subrange(log.applied as int, log.commit as int));
    assert(due[n - 1] == es[log.applied + n - 1]);
    let later = LogState { applied: due[n - 1].index, ..log };
    assert(later.applied == log.applied + n);
    assert(later.unapplied() =~= due.skip(n));
}

} // verus!
