//! Raft protocol messages.
//!
//! [`LogEntry`] is the unit of replication, [`RaftMessage`] everything that
//! peers exchange. [`Entry`] and [`Message`] are their mathematical views, over
//! which the log, the node and the protocol are specified.

use vstd::prelude::*;

use crate::storage::wal::WalEntry;

verus! {

/// Mathematical view of a [`LogEntry`].
#[verifier::ext_equal]
pub struct Entry {
    pub index: u64,
    pub term: u64,
    pub command: Seq<u8>,
}

/// A single entry in the replicated log. The command is opaque to consensus.
#[derive(Debug, PartialEq, Eq)]
pub struct LogEntry {
    /// Log index, counted from one.
    pub index: u64,
    /// The term in which the entry was proposed.
    pub term: u64,
    /// Encoded state machine command.
    pub command: Vec<u8>,
}

impl View for LogEntry {
    type V = Entry;

    open spec fn view(&self) -> Entry {
        Entry { index: self.index, term: self.term, command: self.command@ }
    }
}

/// The views of a sequence of entries.
pub open spec fn entry_views(entries: Seq<LogEntry>) -> Seq<Entry> {
    Seq::new(entries.len(), |i: int| entries[i]@)
}

impl LogEntry {
    /// Create a new log entry.
    pub fn new(index: u64, term: u64, command: Vec<u8>) -> (entry: Self)
        ensures
            entry == (LogEntry { index, term, command }),
    {
        LogEntry { index, term, command }
    }
}

impl Clone for LogEntry {
    fn clone(&self) -> (copy: Self)
        ensures
            copy@ == self@,
    {
        let command: Vec<u8> = self.command.clone();
        assert(command@ =~= self.command@);
        LogEntry { index: self.index, term: self.term, command }
    }
}

impl From<LogEntry> for WalEntry {
    fn from(entry: LogEntry) -> (r: Self) {
        WalEntry { index: entry.index, term: entry.term, data: entry.command }
    }
}

impl vstd::std_specs::convert::FromSpecImpl<LogEntry> for WalEntry {
    open spec fn obeys_from_spec() -> bool {
        true
    }

    open spec fn from_spec(entry: LogEntry) -> Self {
        WalEntry { index: entry.index, term: entry.term, data: entry.command }
    }
}

impl From<WalEntry> for LogEntry {
    fn from(entry: WalEntry) -> (r: Self) {
        LogEntry { index: entry.index, term: entry.term, command: entry.data }
    }
}

impl vstd::std_specs::convert::FromSpecImpl<WalEntry> for LogEntry {
    open spec fn obeys_from_spec() -> bool {
        true
    }

    open spec fn from_spec(entry: WalEntry) -> Self {
        LogEntry { index: entry.index, term: entry.term, command: entry.data }
    }
}

/// Copy a run of entries.
pub fn clone_entries(entries: &Vec<LogEntry>) -> (copy: Vec<LogEntry>)
    ensures
        entry_views(copy@) == entry_views(entries@),
{
    let mut copy: Vec<LogEntry> = Vec::new();
    let mut i: usize = 0;
    while i < entries.len()
        invariant
            i <= entries.len(),
            copy.len() == i,
            forall|k: int| 0 <= k < i ==> (#[trigger] copy[k])@ == entries[k]@,
        decreases entries.len() - i,
    {
        copy.push(entries[i].clone());
        i += 1;
    }
    assert(entry_views(copy@) =~= entry_views(entries@));
    copy
}

/// Mathematical view of a [`RaftMessage`].
#[verifier::ext_equal]
pub enum Message {
    RequestVote { term: u64, candidate_id: u64, last_log_index: u64, last_log_term: u64 },
    RequestVoteResponse { term: u64, vote_granted: bool, from: u64 },
    PreVote { term: u64, candidate_id: u64, last_log_index: u64, last_log_term: u64 },
    PreVoteResponse { term: u64, vote_granted: bool, from: u64 },
    AppendEntries {
        term: u64,
        leader_id: u64,
        prev_log_index: u64,
        prev_log_term: u64,
        entries: Seq<Entry>,
        leader_commit: u64,
    },
    AppendEntriesResponse { term: u64, success: bool, match_index: u64, from: u64 },
}

impl Message {
    /// The term that the message carries.
    pub open spec fn term(self) -> u64 {
        match self {
            Message::RequestVote { term, .. } => term,
            Message::RequestVoteResponse { term, .. } => term,
            Message::PreVote { term, .. } => term,
            Message::PreVoteResponse { term, .. } => term,
            Message::AppendEntries { term, .. } => term,
            Message::AppendEntriesResponse { term, .. } => term,
        }
    }
}

/// All messages exchanged between Raft peers.
#[derive(Debug)]
pub enum RaftMessage {
    /// Sent by candidates to request votes from peers.
    RequestVote {
        /// Candidate's current term.
        term: u64,
        /// ID of the candidate requesting the vote.
        candidate_id: u64,
        /// Index of the candidate's last log entry.
        last_log_index: u64,
        /// Term of the candidate's last log entry.
        last_log_term: u64,
    },
    /// Response to a `RequestVote`.
    RequestVoteResponse {
        /// The responder's current term.
        term: u64,
        /// `true` if the vote was granted.
        vote_granted: bool,
        /// ID of the responding node.
        from: u64,
    },
    /// Pre-vote request. A node must win a pre-vote round before it increments
    /// its term and starts a real election.
    PreVote {
        /// The term the candidate would use in a real election.
        term: u64,
        /// ID of the pre-candidate.
        candidate_id: u64,
        /// Index of the pre-candidate's last log entry.
        last_log_index: u64,
        /// Term of the pre-candidate's last log entry.
        last_log_term: u64,
    },
    /// Response to a `PreVote`.
    PreVoteResponse {
        /// The responder's current term.
        term: u64,
        /// `true` if the pre-vote was granted.
        vote_granted: bool,
        /// ID of the responding node.
        from: u64,
    },
    /// Sent by the leader to replicate log entries; a heartbeat when `entries`
    /// is empty.
    AppendEntries {
        /// Leader's current term.
        term: u64,
        /// ID of the leader.
        leader_id: u64,
        /// Index of the log entry immediately preceding the new entries.
        prev_log_index: u64,
        /// Term of the entry at `prev_log_index`.
        prev_log_term: u64,
        /// Log entries to replicate.
        entries: Vec<LogEntry>,
        /// Leader's commit index. Followers advance theirs to the smaller of it
        /// and the index of the last new entry.
        leader_commit: u64,
    },
    /// Response to an `AppendEntries`.
    AppendEntriesResponse {
        /// The responder's current term.
        term: u64,
        /// `true` if the follower appended the entries.
        success: bool,
        /// The highest index at which the follower's log is known to match the
        /// leader's.
        match_index: u64,
        /// ID of the responding follower.
        from: u64,
    },
}

impl View for RaftMessage {
    type V = Message;

    open spec fn view(&self) -> Message {
        match *self {
            RaftMessage::RequestVote { term, candidate_id, last_log_index, last_log_term } =>
                Message::RequestVote { term, candidate_id, last_log_index, last_log_term },
            RaftMessage::RequestVoteResponse { term, vote_granted, from } =>
                Message::RequestVoteResponse { term, vote_granted, from },
            RaftMessage::PreVote { term, candidate_id, last_log_index, last_log_term } =>
                Message::PreVote { term, candidate_id, last_log_index, last_log_term },
            RaftMessage::PreVoteResponse { term, vote_granted, from } =>
                Message::PreVoteResponse { term, vote_granted, from },
            RaftMessage::AppendEntries {
                term,
                leader_id,
                prev_log_index,
                prev_log_term,
                entries,
                leader_commit,
            } => Message::AppendEntries {
                term,
                leader_id,
                prev_log_index,
                prev_log_term,
                entries: entry_views(entries@),
                leader_commit,
            },
            RaftMessage::AppendEntriesResponse { term, success, match_index, from } =>
                Message::AppendEntriesResponse { term, success, match_index, from },
        }
    }
}

impl RaftMessage {
    /// Extract the term from any message variant.
    pub fn term(&self) -> (term: u64)
        ensures
            term == self@.term(),
    {
        match self {
            RaftMessage::RequestVote { term, .. } => *term,
            RaftMessage::RequestVoteResponse { term, .. } => *term,
            RaftMessage::PreVote { term, .. } => *term,
            RaftMessage::PreVoteResponse { term, .. } => *term,
            RaftMessage::AppendEntries { term, .. } => *term,
            RaftMessage::AppendEntriesResponse { term, .. } => *term,
        }
    }
}

impl Clone for RaftMessage {
    fn clone(&self) -> (copy: Self)
        ensures
            copy@ == self@,
    {
        match self {
            RaftMessage::RequestVote { term, candidate_id, last_log_index, last_log_term } =>
                RaftMessage::RequestVote {
                    term: *term,
                    candidate_id: *candidate_id,
                    last_log_index: *last_log_index,
                    last_log_term: *last_log_term,
                },
            RaftMessage::RequestVoteResponse { term, vote_granted, from } =>
                RaftMessage::RequestVoteResponse {
                    term: *term,
                    vote_granted: *vote_granted,
                    from: *from,
                },
            RaftMessage::PreVote { term, candidate_id, last_log_index, last_log_term } =>
                RaftMessage::PreVote {
                    term: *term,
                    candidate_id: *candidate_id,
                    last_log_index: *last_log_index,
                    last_log_term: *last_log_term,
                },
            RaftMessage::PreVoteResponse { term, vote_granted, from } =>
                RaftMessage::PreVoteResponse {
                    term: *term,
                    vote_granted: *vote_granted,
                    from: *from,
                },
            RaftMessage::AppendEntries {
                term,
                leader_id,
                prev_log_index,
                prev_log_term,
                entries,
                leader_commit,
            } => RaftMessage::AppendEntries {
                term: *term,
                leader_id: *leader_id,
                prev_log_index: *prev_log_index,
                prev_log_term: *prev_log_term,
                entries: clone_entries(entries),
                leader_commit: *leader_commit,
            },
            RaftMessage::AppendEntriesResponse { term, success, match_index, from } =>
                RaftMessage::AppendEntriesResponse {
                    term: *term,
                    success: *success,
                    match_index: *match_index,
                    from: *from,
                },
        }
    }
}

/// The term of a message is the one it was made with, whatever its kind.
pub proof fn messages_carry_their_term(
    term: u64,
    a: u64,
    b: u64,
    c: u64,
    yes: bool,
    entries: Seq<Entry>,
)
    ensures
        (Message::RequestVote {
            term,
            candidate_id: a,
            last_log_index: b,
            last_log_term: c,
        }).term() == term,
        (Message::RequestVoteResponse { term, vote_granted: yes, from: a }).term() == term,
        (Message::PreVote {
            term,
            candidate_id: a,
            last_log_index: b,
            last_log_term: c,
        }).term() == term,
        (Message::PreVoteResponse { term, vote_granted: yes, from: a }).term() == term,
        (Message::AppendEntries {
            term,
            leader_id: a,
            prev_log_index: b,
            prev_log_term: c,
            entries,
            leader_commit: b,
        }).term() == term,
        (Message::AppendEntriesResponse {
            term,
            success: yes,
            match_index: b,
            from: a,
        }).term() == term,
{
}

} // verus!
