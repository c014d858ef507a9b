//! Raft consensus error type.

use vstd::prelude::*;
use vstd::string::*;

use crate::model::error::LeviathanError;
use crate::storage::error::StorageError;
use crate::text::{
    decimal, occurs_in, option_text, owned, parts_are_found, push_decimal, push_option,
};

verus! {

/// Failure modes of the consensus subsystem.
#[derive(Debug)]
pub enum RaftError {
    /// The current node is not the leader and cannot service a write request.
    NotLeader {
        /// Last known leader, if any. Clients should redirect to this node.
        leader: Option<u64>,
    },
    /// A message arrived with a stale term.
    TermMismatch {
        /// The term of the local node.
        local_term: u64,
        /// The term carried by the inbound message.
        remote_term: u64,
    },
    /// The follower's log does not match the leader's at the given index.
    LogDivergence {
        /// The index at which divergence was detected.
        index: u64,
        /// The term the leader expected at that index.
        expected_term: u64,
        /// The term the follower has (`None` if the index is beyond the log).
        found_term: Option<u64>,
    },
    /// An error from the underlying durable storage.
    StorageFailure(String),
    /// A bounded channel was closed or full.
    ChannelClosed(String),
    /// A mutex was poisoned by a panicking thread.
    MutexPoisoned(String),
    /// An election round timed out without reaching quorum.
    ElectionTimeout {
        /// How many election rounds were attempted.
        attempts: u64,
    },
    /// The log has reached its limit of uncommitted entries.
    BackPressure {
        /// Current number of uncommitted entries.
        count: u64,
    },
    /// An internal invariant was violated.
    Internal(String),
}

impl RaftError {
    /// The error message.
    pub open spec fn text(&self) -> Seq<char> {
        match *self {
            RaftError::NotLeader { leader } => "not leader; known leader: "@ + option_text(leader),
            RaftError::TermMismatch { local_term, remote_term } => "term mismatch: local="@
                + decimal(local_term as nat) + ", remote="@ + decimal(remote_term as nat),
            RaftError::LogDivergence { index, expected_term, found_term } =>
                "log divergence at index "@ + decimal(index as nat) + ": expected term "@ + decimal(
                expected_term as nat,
            ) + ", found "@ + option_text(found_term),
            RaftError::StorageFailure(s) => "storage failure: "@ + s@,
            RaftError::ChannelClosed(s) => "channel closed or full: "@ + s@,
            RaftError::MutexPoisoned(s) => "mutex poisoned: "@ + s@,
            RaftError::ElectionTimeout { attempts } => "election timeout: no quorum after "@
                + decimal(attempts as nat) + " attempt(s)"@,
            RaftError::BackPressure { count } =>
                "proposal rejected: too many uncommitted entries ("@ + decimal(count as nat) + ")"@,
            RaftError::Internal(s) => "internal raft error: "@ + s@,
        }
    }

    /// Render the error message.
    pub fn to_string(&self) -> (s: String)
        ensures
            s@ == self.text(),
    {
        match self {
            RaftError::NotLeader { leader } => {
                let mut s = owned("not leader; known leader: ");
                push_option(&mut s, *leader);
                s
            },
            RaftError::TermMismatch { local_term, remote_term } => {
                let mut s = owned("term mismatch: local=");
                push_decimal(&mut s, *local_term);
                s.append(", remote=");
                push_decimal(&mut s, *remote_term);
                s
            },
            RaftError::LogDivergence { index, expected_term, found_term } => {
                let mut s = owned("log divergence at index ");
                push_decimal(&mut s, *index);
                s.append(": expected term ");
                push_decimal(&mut s, *expected_term);
                s.append(", found ");
                push_option(&mut s, *found_term);
                s
            },
            RaftError::StorageFailure(detail) => {
                let mut s = owned("storage failure: ");
                s.append(detail.as_str());
                s
            },
            RaftError::ChannelClosed(detail) => {
                let mut s = owned("channel closed or full: ");
                s.append(detail.as_str());
                s
            },
            RaftError::MutexPoisoned(detail) => {
                let mut s = owned("mutex poisoned: ");
                s.append(detail.as_str());
                s
            },
            RaftError::ElectionTimeout { attempts } => {
                let mut s = owned("election timeout: no quorum after ");
                push_decimal(&mut s, *attempts);
                s.append(" attempt(s)");
                s
            },
            RaftError::BackPressure { count } => {
                let mut s = owned("proposal rejected: too many uncommitted entries (");
                push_decimal(&mut s, *count);
                s.append(")");
                s
            },
            RaftError::Internal(detail) => {
                let mut s = owned("internal raft error: ");
                s.append(detail.as_str());
                s
            },
        }
    }
}

impl From<RaftError> for LeviathanError {
    fn from(e: RaftError) -> (r: Self)
        ensures
            r matches LeviathanError::Consensus(s) && s@ == e.text(),
    {
        LeviathanError::Consensus(e.to_string())
    }
}

impl vstd::std_specs::convert::FromSpecImpl<RaftError> for LeviathanError {
    open spec fn obeys_from_spec() -> bool {
        false
    }

    open spec fn from_spec(e: RaftError) -> Self {
        arbitrary()
    }
}

impl From<StorageError> for RaftError {
    fn from(e: StorageError) -> (r: Self)
        ensures
            r matches RaftError::StorageFailure(s) && s@ == e.text(),
    {
        RaftError::StorageFailure(e.to_string())
    }
}

impl vstd::std_specs::convert::FromSpecImpl<StorageError> for RaftError {
    open spec fn obeys_from_spec() -> bool {
        false
    }

    open spec fn from_spec(e: StorageError) -> Self {
        arbitrary()
    }
}

impl From<LeviathanError> for RaftError {
    fn from(e: LeviathanError) -> (r: Self)
        ensures
            r matches RaftError::StorageFailure(s) && s@ == e.text(),
    {
        RaftError::StorageFailure(e.to_string())
    }
}

impl vstd::std_specs::convert::FromSpecImpl<LeviathanError> for RaftError {
    open spec fn obeys_from_spec() -> bool {
        false
    }

    open spec fn from_spec(e: LeviathanError) -> Self {
        arbitrary()
    }
}

/// The message of an error names the failure and gives the numbers or words that it
/// carries, in their places.
pub proof fn raft_errors_keep_their_details(w: String, a: u64, b: u64, known: Option<u64>)
    ensures
        option_text(known).is_suffix_of((RaftError::NotLeader { leader: known }).text()),
        (decimal(a as nat) + (", remote="@ + decimal(b as nat))).is_suffix_of(
            (RaftError::TermMismatch { local_term: a, remote_term: b }).text(),
        ),
        (decimal(b as nat) + (", found "@ + option_text(known))).is_suffix_of(
            (RaftError::LogDivergence { index: a, expected_term: b, found_term: known }).text(),
        ),
        ("log divergence at index "@ + decimal(a as nat)).is_prefix_of(
            (RaftError::LogDivergence { index: a, expected_term: b, found_term: known }).text(),
        ),
        "storage failure: "@.is_prefix_of(RaftError::StorageFailure(w).text()),
        w@.is_suffix_of(RaftError::StorageFailure(w).text()),
        w@.is_suffix_of(RaftError::ChannelClosed(w).text()),
        w@.is_suffix_of(RaftError::MutexPoisoned(w).text()),
        w@.is_suffix_of(RaftError::Internal(w).text()),
        occurs_in(decimal(a as nat), (RaftError::ElectionTimeout { attempts: a }).text()),
        occurs_in(decimal(a as nat), (RaftError::BackPressure { count: a }).text()),
{
    let x = decimal(a as nat);
    let y = decimal(b as nat);
    let z = option_text(known);
    assert(z.is_suffix_of((RaftError::NotLeader { leader: known }).text())) by {
        parts_are_found("not leader; known leader: "@, z, z);
    }
    let both = x + (", remote="@ + y);
    assert(both.is_suffix_of((RaftError::TermMismatch { local_term: a, remote_term: b }).text()))
        by {
        parts_are_found("term mismatch: local="@, both, z);
        assert("term mismatch: local="@ + x + ", remote="@ + y =~= "term mismatch: local="@
            + both);
    }
    let divergence = (RaftError::LogDivergence {
        index: a,
        expected_term: b,
        found_term: known,
    }).text();
    let head = "log divergence at index "@ + x;
    let tail = y + (", found "@ + z);
    assert(tail.is_suffix_of(divergence)) by {
        parts_are_found(head + ": expected term "@, tail, z);
        assert(divergence =~= head + ": expected term "@ + tail);
    }
    assert(head.is_prefix_of(divergence)) by {
        let rest = ": expected term "@ + y + ", found "@ + z;
        parts_are_found(head, rest, z);
        assert(divergence =~= head + rest);
    }
    assert(w@.is_suffix_of(RaftError::StorageFailure(w).text()) && "storage failure: "@.is_prefix_of(
        RaftError::StorageFailure(w).text(),
    )) by {
        parts_are_found("storage failure: "@, w@, z);
    }
    assert(w@.is_suffix_of(RaftError::ChannelClosed(w).text())) by {
        parts_are_found("channel closed or full: "@, w@, z);
    }
    assert(w@.is_suffix_of(RaftError::MutexPoisoned(w).text())) by {
        parts_are_found("mutex poisoned: "@, w@, z);
    }
    assert(w@.is_suffix_of(RaftError::Internal(w).text())) by {
        parts_are_found("internal raft error: "@, w@, z);
    }
    assert(occurs_in(x, (RaftError::ElectionTimeout { attempts: a }).text())) by {
        parts_are_found("election timeout: no quorum after "@, x, " attempt(s)"@);
    }
    assert(occurs_in(x, (RaftError::BackPressure { count: a }).text())) by {
        parts_are_found("proposal rejected: too many uncommitted entries ("@, x, ")"@);
    }
}

} // verus!
