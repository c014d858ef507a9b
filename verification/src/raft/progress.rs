//! What a node does about what happens to it, told by what it knew and what came: whom it
//! votes for, when it leads, what it takes into its log, what it commits and what it
//! answers.

use vstd::prelude::*;

use crate::raft::log::{
    append_ops, conflict, contiguous, contiguous_lookup, fresh, last_index, merge_ops,
    merge_shape, merged, prev_matches, range, ranges_go_from_index_to_index, repaired,
    term_at, truncated, LogState, Op, StorageReport,
};
use crate::raft::message::{Entry, Message, RaftMessage};
use crate::raft::node::{
    envelopes, Envelope, Event, NodeEvent, NodeOutput, NodeState, RaftNode, Reply, Role,
};
use crate::raft::state_machine::{accepted_count, state_after, StateMachine};

verus! {

// ---------------------------------------------------------------------------
// Messages to all others
// ---------------------------------------------------------------------------

/// One message, of the wanted kind, goes to every other member, and nothing else is sent.
pub open spec fn one_to_each_other(
    peers: Seq<u64>,
    id: u64,
    sends: Seq<Envelope>,
    wanted: spec_fn(u64, Message) -> bool,
) -> bool {
    &&& forall|p: u64| #[trigger]
        peers.contains(p) && p != id ==> exists|k: int|
            0 <= k < sends.len() && (#[trigger] sends[k]).to == p
    &&& forall|k: int|
        0 <= k < sends.len() ==> peers.contains((#[trigger] sends[k]).to) && sends[k].to != id
            && wanted(sends[k].to, sends[k].msg)
    &&& peers.no_duplicates() ==> forall|j: int, k: int|
        0 <= j < k < sends.len() ==> (#[trigger] sends[j]).to != (#[trigger] sends[k]).to
}

proof fn filter_keeps_distinct(peers: Seq<u64>, keep: spec_fn(u64) -> bool)
    requires
        peers.no_duplicates(),
    ensures
        peers.filter(keep).no_duplicates(),
    decreases peers.len(),
{
    reveal(Seq::filter);
    if peers.len() > 0 {
        let front = peers.drop_last();
        filter_keeps_distinct(front, keep);
        let last = peers.last();
        if front.filter(keep).contains(last) {
            front.lemma_filter_contains_rev(keep, last);
            let k = choose|k: int| 0 <= k < front.len() && front[k] == last;
            assert(peers[k] == peers[peers.len() - 1]);
        }
        let kept = peers.filter(keep);
        assert forall|i: int, j: int| 0 <= i < kept.len() && 0 <= j < kept.len() && i
            != j implies kept[i] != kept[j] by {
            if keep(last) {
                let before = front.filter(keep);
                assert(kept == before.push(last));
                if i == before.len() {
                    assert(before.contains(before[j]));
                } else if j == before.len() {
                    assert(before.contains(before[i]));
                }
            }
        }
    }
}

proof fn others_are_reached(
    s: NodeState,
    msg: spec_fn(u64) -> Message,
    wanted: spec_fn(u64, Message) -> bool,
)
    requires
        forall|p: u64| s.peers.contains(p) && p != s.id ==> wanted(p, #[trigger] msg(p)),
    ensures
        one_to_each_other(s.peers, s.id, s.to_others(msg), wanted),
{
    let keep = |p: u64| p != s.id;
    let picked = s.peers.filter(keep);
    let out = s.to_others(msg);
    assert forall|k: int| 0 <= k < out.len() implies s.peers.contains((#[trigger] out[k]).to)
        && out[k].to != s.id && wanted(out[k].to, out[k].msg) by {
        assert(out[k] == (Envelope { to: picked[k], msg: msg(picked[k]) }));
        assert(picked.contains(picked[k]));
        s.peers.lemma_filter_contains_rev(keep, picked[k]);
        assert(keep(picked[k]));
    }
    assert forall|p: u64| #[trigger] s.peers.contains(p) && p != s.id implies exists|k: int|
        0 <= k < out.len() && (#[trigger] out[k]).to == p by {
        let i = choose|i: int| 0 <= i < s.peers.len() && s.peers[i] == p;
        assert(keep(s.peers[i]));
        s.peers.lemma_filter_contains(keep, i);
        let k = choose|k: int| 0 <= k < picked.len() && picked[k] == p;
        assert(out[k].to == p);
    }
    if s.peers.no_duplicates() {
        filter_keeps_distinct(s.peers, keep);
    }
}

// ---------------------------------------------------------------------------
// Elections
// ---------------------------------------------------------------------------

/// A candidate that another member votes for in its term leads as soon as the distinct
/// others that did so, and itself, are more than half of the cluster. It then lets every
/// other member know. Until then it stays a candidate, remembers the vote and is silent.
pub proof fn votes_of_a_majority_elect(s: NodeState, from: u64, completed: nat, error: Seq<char>)
    requires
        s.role == Role::Candidate,
        s.votes.finite(),
        s.peers.contains(from),
        from != s.id,
    ensures
        ({
            let vote = Message::RequestVoteResponse { term: s.term, vote_granted: true, from };
            let r = s.react(Event::Receive(vote), completed, error);
            let voters = s.votes.insert(from);
            &&& r.state.term == s.term
            &&& r.state.voted_for == s.voted_for
            &&& r.state.log == s.log
            &&& voters.len() + 1 >= s.peers.len() / 2 + 1 ==> {
                &&& r.state.role == Role::Leader
                &&& r.state.leader_id == Some(s.id)
                &&& one_to_each_other(
                    s.peers,
                    s.id,
                    r.sends,
                    |p: u64, m: Message|
                        m is AppendEntries && m->AppendEntries_term == s.term && m->leader_id
                            == s.id,
                )
            }
            &&& voters.len() + 1 < s.peers.len() / 2 + 1 ==> {
                &&& r.state.role == Role::Candidate
                &&& r.state.votes == voters
                &&& r.sends.len() == 0
            }
        }),
{
    let vote = Message::RequestVoteResponse { term: s.term, vote_granted: true, from };
    let r = s.react(Event::Receive(vote), completed, error);
    let won = NodeState { votes: s.votes.insert(from), ..s }.become_leader().state;
    let wanted = |p: u64, m: Message|
        m is AppendEntries && m->AppendEntries_term == s.term && m->leader_id == s.id;
    others_are_reached(won, |p: u64| won.append_message(p), wanted);
}

/// A vote does not count that was refused, that is of an earlier term, or that comes from
/// the candidate itself or from outside the cluster; and none counts for a node that is
/// no candidate.
pub proof fn other_votes_do_not_count(
    s: NodeState,
    term: u64,
    granted: bool,
    from: u64,
    completed: nat,
    error: Seq<char>,
)
    requires
        term <= s.term,
        !granted || term < s.term || from == s.id || !s.peers.contains(from) || s.role
            != Role::Candidate,
    ensures
        ({
            let vote = Message::RequestVoteResponse { term, vote_granted: granted, from };
            let r = s.react(Event::Receive(vote), completed, error);
            r.state == s && r.sends.len() == 0
        }),
{
}

/// A new leader sends every other member what follows its own last entry next, and knows
/// nothing yet of what they hold.
pub proof fn new_leaders_start_from_their_last_entry(
    s: NodeState,
    from: u64,
    other: u64,
    completed: nat,
    error: Seq<char>,
)
    requires
        s.role == Role::Candidate,
        s.votes.finite(),
        s.peers.contains(from),
        from != s.id,
        s.votes.insert(from).len() + 1 >= s.peers.len() / 2 + 1,
        contiguous(s.log.entries),
        s.log.entries.len() < u64::MAX,
        s.peers.contains(other),
        other != s.id,
    ensures
        ({
            let vote = Message::RequestVoteResponse { term: s.term, vote_granted: true, from };
            let r = s.react(Event::Receive(vote), completed, error).state;
            &&& r.next_index.contains_key(other)
            &&& r.next_index[other] == s.log.entries.len() + 1
            &&& r.match_index.contains_key(other)
            &&& r.match_index[other] == 0
        }),
{
    contiguous_lookup(s.log.entries, 0);
}

/// When the election timer of a node in a cluster of several expires, it asks every other
/// member: whether it would vote for the node, where pre-votes are on, without entering
/// the next term; for the vote itself in the next term, where they are off, with its own
/// vote cast for itself. Either question tells how far its log goes. A leader does nothing.
pub proof fn expired_timers_start_elections(s: NodeState, completed: nat, error: Seq<char>)
    requires
        s.term < u64::MAX,
        s.peers.len() >= 2,
    ensures
        ({
            let r = s.react(Event::ElectionTimeout, completed, error);
            let log = s.log.entries;
            let index: u64 = if log.len() == 0 {
                0
            } else {
                log.last().index
            };
            let log_term: u64 = if log.len() == 0 {
                0
            } else {
                log.last().term
            };
            &&& r.state.log == s.log
            &&& s.role == Role::Leader ==> r.state == s && r.sends.len() == 0
            &&& s.role != Role::Leader && s.pre_vote ==> {
                &&& r.state.term == s.term
                &&& r.state.role == s.role
                &&& r.state.voted_for == s.voted_for
                &&& r.state.pre_voting
                &&& r.state.pre_votes == Set::<u64>::empty()
                &&& one_to_each_other(
                    s.peers,
                    s.id,
                    r.sends,
                    |p: u64, m: Message|
                        m is PreVote && m->PreVote_term == s.term + 1 && m->PreVote_candidate_id
                            == s.id && m->PreVote_last_log_index == index
                            && m->PreVote_last_log_term == log_term,
                )
            }
            &&& s.role != Role::Leader && !s.pre_vote ==> {
                &&& r.state.term == s.term + 1
                &&& r.state.role == Role::Candidate
                &&& r.state.voted_for == Some(s.id)
                &&& r.state.votes == Set::<u64>::empty()
                &&& one_to_each_other(
                    s.peers,
                    s.id,
                    r.sends,
                    |p: u64, m: Message|
                        m is RequestVote && m->RequestVote_term == s.term + 1
                            && m->RequestVote_candidate_id == s.id
                            && m->RequestVote_last_log_index == index
                            && m->RequestVote_last_log_term == log_term,
                )
            }
        }),
{
    let log = s.log.entries;
    let index: u64 = if log.len() == 0 { 0 } else { log.last().index };
    let log_term: u64 = if log.len() == 0 { 0 } else { log.last().term };
    let next = (s.term + 1) as u64;
    let probe = Message::PreVote {
        term: next,
        candidate_id: s.id,
        last_log_index: index,
        last_log_term: log_term,
    };
    let ask = Message::RequestVote {
        term: next,
        candidate_id: s.id,
        last_log_index: index,
        last_log_term: log_term,
    };
    others_are_reached(
        s,
        |p: u64| probe,
        |p: u64, m: Message|
            m is PreVote && m->PreVote_term == s.term + 1 && m->PreVote_candidate_id == s.id
                && m->PreVote_last_log_index == index && m->PreVote_last_log_term == log_term,
    );
    others_are_reached(
        s,
        |p: u64| ask,
        |p: u64, m: Message|
            m is RequestVote && m->RequestVote_term == s.term + 1 && m->RequestVote_candidate_id
                == s.id && m->RequestVote_last_log_index == index && m->RequestVote_last_log_term
                == log_term,
    );
}

/// While a pre-vote round is on, a node that would get the votes of more than half of the
/// cluster, its own included, enters the next term as a candidate and asks every other
/// member for its vote; before that it only remembers who would vote for it.
pub proof fn pre_votes_of_a_majority_start_the_election(
    s: NodeState,
    term: u64,
    from: u64,
    completed: nat,
    error: Seq<char>,
)
    requires
        s.role != Role::Leader,
        s.pre_voting,
        s.pre_votes.finite(),
        s.term < u64::MAX,
        term <= s.term,
        s.peers.len() >= 2,
        s.peers.contains(from),
        from != s.id,
    ensures
        ({
            let vote = Message::PreVoteResponse { term, vote_granted: true, from };
            let r = s.react(Event::Receive(vote), completed, error);
            let willing = s.pre_votes.insert(from);
            &&& r.state.log == s.log
            &&& willing.len() + 1 >= s.peers.len() / 2 + 1 ==> {
                &&& r.state.role == Role::Candidate
                &&& r.state.term == s.term + 1
                &&& r.state.voted_for == Some(s.id)
                &&& r.state.votes == Set::<u64>::empty()
                &&& !r.state.pre_voting
                &&& one_to_each_other(
                    s.peers,
                    s.id,
                    r.sends,
                    |p: u64, m: Message|
                        m is RequestVote && m->RequestVote_term == s.term + 1
                            && m->RequestVote_candidate_id == s.id,
                )
            }
            &&& willing.len() + 1 < s.peers.len() / 2 + 1 ==> {
                &&& r.state.role == s.role
                &&& r.state.term == s.term
                &&& r.state.voted_for == s.voted_for
                &&& r.state.pre_voting
                &&& r.state.pre_votes == willing
                &&& r.sends.len() == 0
            }
        }),
{
    let next = (s.term + 1) as u64;
    let ask = Message::RequestVote {
        term: next,
        candidate_id: s.id,
        last_log_index: last_index(s.log.entries),
        last_log_term: crate::raft::log::last_term(s.log.entries),
    };
    let mid = NodeState { pre_votes: s.pre_votes.insert(from), ..s };
    others_are_reached(
        mid,
        |p: u64| ask,
        |p: u64, m: Message|
            m is RequestVote && m->RequestVote_term == s.term + 1 && m->RequestVote_candidate_id
                == s.id,
    );
}

/// A pre-vote does not count that was refused, that comes from outside the cluster or from
/// the node itself, or that comes when no round is on.
pub proof fn other_pre_votes_do_not_count(
    s: NodeState,
    term: u64,
    granted: bool,
    from: u64,
    completed: nat,
    error: Seq<char>,
)
    requires
        term <= s.term,
        !granted || !s.pre_voting || from == s.id || !s.peers.contains(from) || s.role
            == Role::Leader,
    ensures
        ({
            let vote = Message::PreVoteResponse { term, vote_granted: granted, from };
            let r = s.react(Event::Receive(vote), completed, error);
            r.state == s && r.sends.len() == 0
        }),
{
}

/// The log that a request speaks of is not behind the node's own: it ends in a later term,
/// or in the same term and reaches as far.
pub open spec fn reaches_as_far(log: Seq<Entry>, index: u64, term: u64) -> bool {
    log.len() == 0 || term > log.last().term || (term == log.last().term && index
        >= log.last().index)
}

/// A vote is given exactly to a candidate whose term is not behind, if the node has not
/// voted for another in that term, and if the candidate's log is not behind the node's.
/// The answer goes to the candidate alone and tells the node's term and decision; the node
/// keeps to it.
pub proof fn votes_are_given_to_the_up_to_date(
    s: NodeState,
    term: u64,
    candidate: u64,
    index: u64,
    log_term: u64,
    completed: nat,
    error: Seq<char>,
)
    ensures
        ({
            let request = Message::RequestVote {
                term,
                candidate_id: candidate,
                last_log_index: index,
                last_log_term: log_term,
            };
            let r = s.react(Event::Receive(request), completed, error);
            let now: u64 = if term > s.term {
                term
            } else {
                s.term
            };
            let granted = term >= s.term && (term > s.term || s.voted_for is None || s.voted_for
                == Some(candidate)) && reaches_as_far(s.log.entries, index, log_term);
            &&& r.sends.len() == 1
            &&& r.sends[0].to == candidate
            &&& r.sends[0].msg == (Message::RequestVoteResponse {
                term: now,
                vote_granted: granted,
                from: s.id,
            })
            &&& r.state.term == now
            &&& r.state.log == s.log
            &&& granted ==> r.state.voted_for == Some(candidate) && r.state.role == Role::Follower
            &&& !granted && term > s.term ==> r.state.voted_for is None && r.state.role
                == Role::Follower
            &&& !granted && term <= s.term ==> r.state == s
        }),
{
}

/// A pre-vote is promised exactly to a node whose next term would not be behind and whose
/// log is not behind. Promising it changes nothing.
pub proof fn pre_votes_are_promised_to_the_up_to_date(
    s: NodeState,
    term: u64,
    candidate: u64,
    index: u64,
    log_term: u64,
    completed: nat,
    error: Seq<char>,
)
    ensures
        ({
            let request = Message::PreVote {
                term,
                candidate_id: candidate,
                last_log_index: index,
                last_log_term: log_term,
            };
            let r = s.react(Event::Receive(request), completed, error);
            &&& r.state == s
            &&& r.sends.len() == 1
            &&& r.sends[0].to == candidate
            &&& r.sends[0].msg == (Message::PreVoteResponse {
                term: s.term,
                vote_granted: term >= s.term && reaches_as_far(s.log.entries, index, log_term),
                from: s.id,
            })
        }),
{
}

/// Stepping down goes by the term alone: a higher one is entered as a follower that has
/// not voted, any other changes nothing. The log stays either way.
pub proof fn only_higher_terms_depose(s: NodeState, remote: u64)
    ensures
        remote <= s.term ==> s.step_down(remote) == s,
        remote > s.term ==> {
            let r = s.step_down(remote);
            &&& r.term == remote
            &&& r.role == Role::Follower
            &&& r.voted_for is None
            &&& !r.pre_voting
            &&& r.log == s.log
            &&& r.id == s.id
            &&& r.peers == s.peers
        },
{
}

// ---------------------------------------------------------------------------
// Replication
// ---------------------------------------------------------------------------

/// A heartbeat brings every other member what it lacks: the entries that follow what it is
/// next to get, no more than a batch of them, with the entry before them and how far the
/// leader has committed. Nothing about the leader changes. Who does not lead is silent.
pub proof fn heartbeats_bring_what_is_missing(
    s: NodeState,
    p: u64,
    completed: nat,
    error: Seq<char>,
)
    requires
        contiguous(s.log.entries),
        s.log.entries.len() < u64::MAX,
        s.peers.contains(p),
        p != s.id,
        s.next_index.contains_key(p),
        1 <= s.next_index[p] <= s.log.entries.len() + 1,
        s.max_batch >= 1,
    ensures
        ({
            let r = s.react(Event::HeartbeatTick, completed, error);
            let log = s.log.entries;
            let held = s.next_index[p] - 1;
            let end = if held + s.max_batch < log.len() {
                held + s.max_batch
            } else {
                log.len() as int
            };
            let before: u64 = if held == 0 {
                0
            } else {
                log[held - 1].term
            };
            &&& r.state == s
            &&& s.role != Role::Leader ==> r.sends.len() == 0
            &&& s.role == Role::Leader ==> r.sends.contains(
                Envelope {
                    to: p,
                    msg: Message::AppendEntries {
                        term: s.term,
                        leader_id: s.id,
                        prev_log_index: held as u64,
                        prev_log_term: before,
                        entries: log.subrange(held, end),
                        leader_commit: s.log.commit,
                    },
                },
            )
        }),
{
    let log = s.log.entries;
    let held = s.next_index[p] - 1;
    let end = if held + s.max_batch < log.len() { held + s.max_batch } else { log.len() as int };
    contiguous_lookup(log, held as u64);
    let wanted = |q: u64, m: Message| m == s.append_message(q);
    others_are_reached(s, |q: u64| s.append_message(q), wanted);
    let sends = s.heartbeats();
    assert(one_to_each_other(s.peers, s.id, sends, wanted));
    let k = choose|k: int| 0 <= k < sends.len() && (#[trigger] sends[k]).to == p;
    assert(wanted(sends[k].to, sends[k].msg));
    if log.len() > 0 {
        assert(log[0].index == 1);
    }
    let got = range(log, held + 1, if held + 1 + s.max_batch - 1 < log.len() {
        held + 1 + s.max_batch - 1
    } else {
        log.len() as int
    });
    assert(got =~= log.subrange(held, end));
    assert(s.append_message(p) == (Message::AppendEntries {
        term: s.term,
        leader_id: s.id,
        prev_log_index: held as u64,
        prev_log_term: if held == 0 {
            0u64
        } else {
            log[held - 1].term
        },
        entries: log.subrange(held, end),
        leader_commit: s.log.commit,
    }));
    assert(sends.contains(sends[k]));
}

/// A leader's entries that follow something that the node holds, and that could be stored,
/// are in its log afterwards, at their places: what comes before them stays, and so does an
/// entry that was there already with the same term. The log reaches at least as far as they
/// do. Where it was no longer than what they follow, they are simply added. The node follows
/// that leader, tells it alone how far it now agrees, and commits what the leader has
/// committed of that.
pub proof fn entries_that_fit_are_taken_in(
    s: NodeState,
    term: u64,
    leader: u64,
    prev: u64,
    prev_term: u64,
    entries: Seq<Entry>,
    leader_commit: u64,
    completed: nat,
    error: Seq<char>,
)
    requires
        contiguous(s.log.entries),
        term >= s.term,
        prev <= s.log.entries.len(),
        prev == 0 || s.log.entries[prev - 1].term == prev_term,
        prev + entries.len() < u64::MAX,
        s.log.entries.len() < u64::MAX,
        forall|j: int| 0 <= j < entries.len() ==> (#[trigger] entries[j]).index == prev + j + 1,
        ({
            let msg = Message::AppendEntries {
                term,
                leader_id: leader,
                prev_log_index: prev,
                prev_log_term: prev_term,
                entries,
                leader_commit,
            };
            completed >= s.plan(Event::Receive(msg)).len()
        }),
    ensures
        ({
            let msg = Message::AppendEntries {
                term,
                leader_id: leader,
                prev_log_index: prev,
                prev_log_term: prev_term,
                entries,
                leader_commit,
            };
            let r = s.react(Event::Receive(msg), completed, error);
            let log = s.log.entries;
            let new = r.state.log.entries;
            let end = prev + entries.len();
            let reached = if leader_commit < end {
                leader_commit as int
            } else {
                end
            };
            &&& contiguous(new)
            &&& new.len() >= end
            &&& forall|j: int| 0 <= j < prev ==> #[trigger] new[j] == log[j]
            &&& forall|j: int|
                prev <= j < end ==> (#[trigger] new[j]).term == entries[j - prev].term && (new[j]
                    == entries[j - prev] || (j < log.len() && new[j] == log[j]))
            &&& log.len() <= prev ==> new == log + entries
            &&& (exists|j: int|
                prev <= j < end && j < log.len() && (#[trigger] log[j]).term != entries[j
                    - prev].term) ==> new.len() == end
            &&& (forall|j: int|
                prev <= j < end && j < log.len() ==> (#[trigger] log[j]).term == entries[j
                    - prev].term) && log.len() >= end ==> new == log
            &&& r.state.term == term
            &&& r.state.role == Role::Follower
            &&& r.state.leader_id == Some(leader)
            &&& r.state.log.commit == (if reached > s.log.commit {
                reached
            } else {
                s.log.commit as int
            })
            &&& r.state.log.applied == s.log.applied
            &&& r.sends.len() == 1
            &&& r.sends[0].to == leader
            &&& r.sends[0].msg == (Message::AppendEntriesResponse {
                term,
                success: true,
                match_index: end as u64,
                from: s.id,
            })
        }),
{
    let log = s.log.entries;
    let msg = Message::AppendEntries {
        term,
        leader_id: leader,
        prev_log_index: prev,
        prev_log_term: prev_term,
        entries,
        leader_commit,
    };
    let r = s.react(Event::Receive(msg), completed, error);
    contiguous_lookup(log, prev);
    assert(prev_matches(log, prev, prev_term));
    assert(s.plan(Event::Receive(msg)) == merge_ops(log, entries));
    let end = prev + entries.len();
    let theirs = log.take(prev as int) + entries;
    assert(contiguous(theirs));
    assert forall|j: int| 0 <= j < entries.len() implies (#[trigger] entries[j]) == theirs[prev
        + j] by {
    }
    let k = merge_shape(log, theirs, prev as int, entries, completed);
    let new = merged(log, entries, completed);
    assert(r.state.log.entries == new);
    assert forall|j: int| prev <= j < end implies (#[trigger] new[j]).term == entries[j - prev].term
        && (new[j] == entries[j - prev] || (j < log.len() && new[j] == log[j])) by {
        assert(theirs[j] == entries[j - prev]);
        if j < k {
            assert(new[j] == log[j]);
            assert(log[j].term == theirs[j].term);
        }
    }
    assert forall|j: int| 0 <= j < new.len() implies (#[trigger] new[j]).index == j + 1 by {
        if j < k {
            assert(new[j] == log[j]);
        } else {
            assert(new[j] == theirs[j]);
        }
    }
    contiguous_lookup(new, 0);
    if log.len() <= prev {
        assert(k == log.len());
        assert(new.len() == end);
        assert forall|j: int| 0 <= j < end implies new[j] == (log + entries)[j] by {
            if j >= k {
                assert(new[j] == theirs[j]);
            }
        }
        assert(new =~= log + entries);
    }
    if exists|j: int|
        prev <= j < end && j < log.len() && (#[trigger] log[j]).term != entries[j - prev].term {
        let j = choose|j: int|
            prev <= j < end && j < log.len() && (#[trigger] log[j]).term != entries[j - prev].term;
        assert(theirs[j] == entries[j - prev]);
        assert(k <= j);
        if new.len() > end {
            assert(new[new.len() - 1] == theirs[new.len() - 1]);
        }
    }
    if (forall|j: int|
        prev <= j < end && j < log.len() ==> (#[trigger] log[j]).term == entries[j - prev].term)
        && log.len() >= end {
        if k < log.len() {
            assert(log[k].term != theirs[k].term);
            assert(theirs[k] == entries[k - prev]);
        }
        if new.len() > log.len() {
            assert(new[new.len() - 1] == theirs[new.len() - 1]);
        }
        assert(new =~= log);
    }
    if entries.len() > 0 {
        assert(entries.last().index == end);
    }
}

/// Entries that follow something that the node does not hold, or that come from a leader
/// whose term is over, are refused: the log and what is committed of it stay, and the
/// answer tells how far the node's log goes. To the entries of a past leader nothing else
/// happens either.
pub proof fn entries_that_do_not_fit_are_refused(
    s: NodeState,
    term: u64,
    leader: u64,
    prev: u64,
    prev_term: u64,
    entries: Seq<Entry>,
    leader_commit: u64,
    completed: nat,
    error: Seq<char>,
)
    requires
        contiguous(s.log.entries),
        s.log.entries.len() < u64::MAX,
        term < s.term || (prev > 0 && (prev > s.log.entries.len() || s.log.entries[prev - 1].term
            != prev_term)),
    ensures
        ({
            let msg = Message::AppendEntries {
                term,
                leader_id: leader,
                prev_log_index: prev,
                prev_log_term: prev_term,
                entries,
                leader_commit,
            };
            let r = s.react(Event::Receive(msg), completed, error);
            &&& s.plan(Event::Receive(msg)).len() == 0
            &&& r.state.log == s.log
            &&& term < s.term ==> r.state == s
            &&& term >= s.term ==> r.state.term == term && r.state.role == Role::Follower
                && r.state.leader_id == Some(leader)
            &&& r.sends.len() == 1
            &&& r.sends[0].to == leader
            &&& r.sends[0].msg == (Message::AppendEntriesResponse {
                term: if term < s.term {
                    s.term
                } else {
                    term
                },
                success: false,
                match_index: s.log.entries.len() as u64,
                from: s.id,
            })
        }),
{
    contiguous_lookup(s.log.entries, prev);
    assert(last_index(s.log.entries) == s.log.entries.len());
}

/// Entries that could not all be stored are not acknowledged, and nothing is committed on
/// their account.
pub proof fn unstored_entries_are_not_acknowledged(
    s: NodeState,
    msg: Message,
    completed: nat,
    error: Seq<char>,
)
    requires
        msg is AppendEntries,
        completed < s.plan(Event::Receive(msg)).len(),
    ensures
        ({
            let r = s.react(Event::Receive(msg), completed, error);
            &&& r.state.log.commit == s.log.commit
            &&& r.sends.len() == 1
            &&& r.sends[0].to == msg->leader_id
            &&& r.sends[0].msg is AppendEntriesResponse
            &&& !r.sends[0].msg->success
        }),
{
}

/// The others that, by what the leader knows, hold the log up to an index.
pub open spec fn holders(s: NodeState, index: u64) -> Set<u64> {
    Set::new(
        |p: u64|
            s.peers.contains(p) && p != s.id && s.match_index.contains_key(p) && s.match_index[p]
                >= index,
    )
}

proof fn commit_reaches(s: NodeState, n: u64, upto: u64)
    requires
        n <= upto,
        s.committable(n),
    ensures
        s.highest_committable(upto) >= n,
    decreases upto,
{
    if upto > s.log.commit && !s.committable(upto) {
        assert(n < upto);
        commit_reaches(s, n, (upto - 1) as u64);
    }
}

proof fn commit_is_backed(s: NodeState, upto: u64)
    ensures
        ({
            let h = s.highest_committable(upto);
            h == s.log.commit || (s.log.commit < h <= upto && s.committable(h))
        }),
    decreases upto,
{
    if upto > s.log.commit && !s.committable(upto) {
        commit_is_backed(s, (upto - 1) as u64);
    }
}

/// A leader remembers the furthest that a member has acknowledged in its term and goes on
/// from there with it. What more than half of the cluster holds, itself included, of its
/// own term is then committed, with all before it; and nothing else is.
pub proof fn acknowledged_by_a_majority_is_committed(
    s: NodeState,
    match_index: u64,
    from: u64,
    n: u64,
    completed: nat,
    error: Seq<char>,
)
    requires
        s.role == Role::Leader,
        contiguous(s.log.entries),
        s.log.entries.len() < u64::MAX,
        s.peers.contains(from),
        from != s.id,
        match_index < u64::MAX,
        s.wf(),
    ensures
        ({
            let ack = Message::AppendEntriesResponse {
                term: s.term,
                success: true,
                match_index,
                from,
            };
            let r = s.react(Event::Receive(ack), completed, error);
            let known: u64 = if s.match_index.contains_key(from) {
                s.match_index[from]
            } else {
                0
            };
            let log = s.log.entries;
            &&& r.sends.len() == 0
            &&& r.state.role == Role::Leader
            &&& r.state.term == s.term
            &&& r.state.log.entries == log
            &&& r.state.log.applied == s.log.applied
            &&& r.state.match_index.contains_key(from)
            &&& r.state.match_index[from] == (if match_index > known {
                match_index
            } else {
                known
            })
            &&& r.state.next_index.contains_key(from)
            &&& r.state.next_index[from] == r.state.match_index[from] + 1
            &&& forall|p: u64|
                p != from ==> (#[trigger] r.state.match_index.contains_key(p)
                    == s.match_index.contains_key(p)) && r.state.match_index[p]
                    == s.match_index[p]
            &&& 1 <= n <= log.len() && log[n - 1].term == s.term && holders(r.state, n).len() + 1
                >= s.peers.len() / 2 + 1 ==> r.state.log.commit >= n
            &&& r.state.log.commit >= s.log.commit
            &&& r.state.log.commit > s.log.commit ==> {
                let c = r.state.log.commit;
                &&& 1 <= c <= log.len()
                &&& log[c - 1].term == s.term
                &&& holders(r.state, c).len() + 1 >= s.peers.len() / 2 + 1
            }
        }),
{
    let known: u64 = if s.match_index.contains_key(from) { s.match_index[from] } else { 0 };
    let matched: u64 = if match_index > known { match_index } else { known };
    let t = NodeState {
        match_index: s.match_index.insert(from, matched),
        next_index: s.next_index.insert(from, (matched + 1) as u64),
        ..s
    };
    let log = s.log.entries;
    let ack = Message::AppendEntriesResponse { term: s.term, success: true, match_index, from };
    let r = s.react(Event::Receive(ack), completed, error);
    assert(r.state == t.advance_commit());
    contiguous_lookup(log, n);
    commit_is_backed(t, last_index(log));
    let c = r.state.log.commit;
    contiguous_lookup(log, c);
    assert(holders(r.state, c) =~= t.replicas(c));
    assert(holders(r.state, n) =~= t.replicas(n));
    if 1 <= n <= log.len() && log[n - 1].term == s.term && holders(r.state, n).len() + 1
        >= s.peers.len() / 2 + 1 {
        assert(t.committable(n));
        commit_reaches(t, n, last_index(log));
    }
}

/// A refusal makes the leader go back by one entry with that member, though never before
/// the first, and changes nothing else.
pub proof fn refusals_step_back_by_one(
    s: NodeState,
    term: u64,
    match_index: u64,
    from: u64,
    completed: nat,
    error: Seq<char>,
)
    requires
        s.role == Role::Leader,
        term <= s.term,
        s.peers.contains(from),
        from != s.id,
        s.next_index.contains_key(from),
    ensures
        ({
            let refusal = Message::AppendEntriesResponse {
                term,
                success: false,
                match_index,
                from,
            };
            let r = s.react(Event::Receive(refusal), completed, error);
            &&& r.sends.len() == 0
            &&& s.next_index[from] > 1 ==> r.state.next_index[from] == s.next_index[from] - 1
            &&& s.next_index[from] <= 1 ==> r.state.next_index[from] == s.next_index[from]
            &&& forall|p: u64| p != from ==> #[trigger] r.state.next_index[p] == s.next_index[p]
            &&& r.state.next_index.dom() == s.next_index.dom()
            &&& r.state.match_index == s.match_index
            &&& r.state.log == s.log
            &&& r.state.term == s.term
            &&& r.state.role == Role::Leader
        }),
{
    let refusal = Message::AppendEntriesResponse { term, success: false, match_index, from };
    let r = s.react(Event::Receive(refusal), completed, error);
    assert(r.state.next_index.dom() =~= s.next_index.dom());
}

/// Acknowledgements of an earlier term, from outside the cluster, or to a node that does
/// not lead change nothing.
pub proof fn stray_acknowledgements_are_ignored(
    s: NodeState,
    term: u64,
    success: bool,
    match_index: u64,
    from: u64,
    completed: nat,
    error: Seq<char>,
)
    requires
        term <= s.term,
        s.role != Role::Leader || !s.peers.contains(from) || from == s.id || (success && term
            < s.term),
    ensures
        ({
            let ack = Message::AppendEntriesResponse { term, success, match_index, from };
            let r = s.react(Event::Receive(ack), completed, error);
            r.state == s && r.sends.len() == 0
        }),
{
}

// ---------------------------------------------------------------------------
// Proposals
// ---------------------------------------------------------------------------

/// A leader with room takes in what a client proposes: once stored, the command is the last
/// entry of its log, in its term, the answer tells where, and every other member is sent
/// what it lacks. In a cluster of several nothing is committed yet.
pub proof fn proposals_are_appended(
    s: NodeState,
    command: Seq<u8>,
    completed: nat,
    error: Seq<char>,
)
    requires
        s.role == Role::Leader,
        contiguous(s.log.entries),
        s.log.commit <= s.log.entries.len() < u64::MAX,
        s.log.entries.len() - s.log.commit < s.max_uncommitted,
        completed >= 1,
        s.peers.len() >= 2,
    ensures
        ({
            let r = s.react(Event::Propose(command), completed, error);
            let log = s.log.entries;
            let entry = Entry { index: (log.len() + 1) as u64, term: s.term, command };
            &&& s.plan(Event::Propose(command)) == seq![Op::Append(entry)]
            &&& r.reply == Some(Reply::Accepted { index: entry.index, term: s.term })
            &&& r.state == (NodeState {
                log: LogState { entries: log.push(entry), ..s.log },
                ..s
            })
            &&& one_to_each_other(
                s.peers,
                s.id,
                r.sends,
                |p: u64, m: Message|
                    m is AppendEntries && m->AppendEntries_term == s.term && m->leader_id == s.id
                        && m->leader_commit == s.log.commit,
            )
        }),
{
    contiguous_lookup(s.log.entries, 0);
    let r = s.react(Event::Propose(command), completed, error);
    let t = r.state;
    others_are_reached(
        t,
        |p: u64| t.append_message(p),
        |p: u64, m: Message|
            m is AppendEntries && m->AppendEntries_term == s.term && m->leader_id == s.id
                && m->leader_commit == s.log.commit,
    );
}

/// A proposal that is not taken in changes nothing and is sent to no one. Who does not lead
/// names the leader it knows of; a leader whose log has run too far ahead of what is
/// committed says by how much; one whose storage failed says why.
pub proof fn other_proposals_are_answered_why(
    s: NodeState,
    command: Seq<u8>,
    completed: nat,
    error: Seq<char>,
)
    requires
        contiguous(s.log.entries),
        s.log.commit <= s.log.entries.len() < u64::MAX,
        s.role != Role::Leader || s.log.entries.len() - s.log.commit >= s.max_uncommitted
            || completed == 0,
    ensures
        ({
            let r = s.react(Event::Propose(command), completed, error);
            let ahead = s.log.entries.len() - s.log.commit;
            &&& r.state == s
            &&& r.sends.len() == 0
            &&& s.role != Role::Leader ==> r.reply == Some(
                Reply::NotLeader { leader: s.leader_id },
            ) && s.plan(Event::Propose(command)).len() == 0
            &&& s.role == Role::Leader && ahead >= s.max_uncommitted ==> r.reply == Some(
                Reply::BackPressure { count: ahead as u64 },
            ) && s.plan(Event::Propose(command)).len() == 0
            &&& s.role == Role::Leader && ahead < s.max_uncommitted ==> r.reply == Some(
                Reply::StorageFailure { error: "storage failure: "@ + error },
            )
        }),
{
    contiguous_lookup(s.log.entries, 0);
}

// ---------------------------------------------------------------------------
// Application
// ---------------------------------------------------------------------------

/// Applying entries is applying them one after the other, and where each is accepted in
/// its turn all of them count.
pub proof fn entries_are_applied_one_by_one<M: StateMachine>(
    s: M::State,
    first: Seq<Entry>,
    then: Seq<Entry>,
    last: Entry,
)
    ensures
        state_after::<M>(s, Seq::empty()) == s,
        state_after::<M>(s, first + then) == state_after::<M>(state_after::<M>(s, first), then),
        state_after::<M>(s, first.push(last)) == M::applied(state_after::<M>(s, first), last),
        accepted_count::<M>(s, first) <= first.len(),
        accepted_count::<M>(s, first) == first.len() && M::accepts(
            state_after::<M>(s, first),
            last,
        ) ==> accepted_count::<M>(s, first.push(last)) == first.len() + 1,
        accepted_count::<M>(s, first) == first.len() && !M::accepts(
            state_after::<M>(s, first),
            last,
        ) ==> accepted_count::<M>(s, first.push(last) + then) == first.len(),
    decreases first.len(),
{
    let one = seq![last];
    if first.len() == 0 {
        assert(first + then =~= then);
        assert(first.push(last) =~= one);
        assert(one.drop_first() =~= Seq::empty());
        assert(state_after::<M>(s, one) == state_after::<M>(M::applied(s, last), one.drop_first()));
        assert((first.push(last) + then)[0] == last);
        assert(accepted_count::<M>(M::applied(s, last), one.drop_first()) == 0);
    } else {
        let t = M::applied(s, first[0]);
        let rest = first.drop_first();
        entries_are_applied_one_by_one::<M>(t, rest, then, last);
        assert((first + then).drop_first() =~= rest + then);
        assert(first.push(last).drop_first() =~= rest.push(last));
        assert((first.push(last) + then).drop_first() =~= rest.push(last) + then);
        assert((first + then)[0] == first[0]);
        assert(first.push(last)[0] == first[0]);
        assert((first.push(last) + then)[0] == first[0]);
    }
}

// ---------------------------------------------------------------------------
// Storage
// ---------------------------------------------------------------------------

/// What storage operations, carried out in order, make of a log.
pub open spec fn stored(log: Seq<Entry>, ops: Seq<Op>) -> Seq<Entry>
    decreases ops.len(),
{
    if ops.len() == 0 {
        log
    } else {
        let before = stored(log, ops.drop_last());
        match ops.last() {
            Op::Truncate(index) => before.filter(|e: Entry| e.index < index),
            Op::Append(entry) => before.push(entry),
        }
    }
}

proof fn appends_are_stored(log: Seq<Entry>, head: Seq<Op>, entries: Seq<Entry>)
    ensures
        stored(log, head + append_ops(entries)) == stored(log, head) + entries,
    decreases entries.len(),
{
    if entries.len() == 0 {
        assert(head + append_ops(entries) =~= head);
        assert(stored(log, head) + entries =~= stored(log, head));
    } else {
        let front = entries.drop_last();
        appends_are_stored(log, head, front);
        let all = head + append_ops(entries);
        assert(all.drop_last() =~= head + append_ops(front));
        assert(all.last() == Op::Append(entries.last()));
        assert(stored(log, head) + entries =~= (stored(log, head) + front).push(entries.last()));
    }
}

/// What a node asks to be stored is what its log becomes: once the operations of an event
/// have been carried out on the stored log, it and the log in memory are the same again.
pub proof fn storage_keeps_up_with_the_log(
    s: NodeState,
    event: Event,
    completed: nat,
    error: Seq<char>,
)
    requires
        completed >= s.plan(event).len(),
    ensures
        stored(s.log.entries, s.plan(event)) == s.react(event, completed, error).state.log.entries,
{
    let log = s.log.entries;
    let none = Seq::<Op>::empty();
    match event {
        Event::Receive(
            Message::AppendEntries { term, prev_log_index, prev_log_term, entries, .. },
        ) => {
            if term >= s.term && prev_matches(log, prev_log_index, prev_log_term) {
                let base = repaired(log, entries);
                let new = fresh(last_index(base), entries);
                let cut: Seq<Op> = match conflict(log, entries) {
                    Some(index) => seq![Op::Truncate(index)],
                    None => Seq::empty(),
                };
                assert(stored(log, none) == log);
                match conflict(log, entries) {
                    Some(index) => {
                        assert(cut.drop_last() =~= none);
                        assert(cut.last() == Op::Truncate(index));
                        assert(stored(log, cut) == truncated(log, index));
                    },
                    None => {
                        assert(cut =~= none);
                    },
                }
                appends_are_stored(log, cut, new);
                assert(s.plan(event) == cut + append_ops(new));
                assert(new.take(new.len() as int) =~= new);
            }
        },
        Event::Propose(command) => {
            let plan = s.plan(event);
            if plan.len() > 0 {
                assert(plan.drop_last() =~= none);
                assert(stored(log, none) == log);
            }
        },
        _ => {},
    }
}

/// A node can react to whatever happens as long as its term, its log and what it is told
/// of the logs of others stay below the largest number there is.
pub proof fn ordinary_counters_have_room(s: NodeState, event: Event)
    requires
        s.term < u64::MAX,
        last_index(s.log.entries) < u64::MAX,
        event matches Event::Receive(Message::AppendEntriesResponse { match_index, .. })
            ==> match_index < u64::MAX,
    ensures
        s.has_room(event),
{
}

// ---------------------------------------------------------------------------
// What handling an event does
// ---------------------------------------------------------------------------

/// After a candidate has handled the vote of another member that makes its votes more than
/// half of the cluster, it leads, and has a message for every other member.
pub proof fn handling_the_deciding_vote_elects(
    vote: RaftMessage,
    report: &StorageReport,
    from: u64,
    other: u64,
)
    requires
        vote matches RaftMessage::RequestVoteResponse { vote_granted, from: f, .. }
            && vote_granted && f == from,
    ensures
        forall|node: &mut RaftNode, out: NodeOutput| #[trigger]
            call_ensures(RaftNode::handle_event, (node, NodeEvent::Receive(vote), report), out) && {
                &&& node.role == Role::Candidate
                &&& vote->RequestVoteResponse_term == node.current_term
                &&& node.config.peers@.contains(from)
                &&& from != node.config.node_id
                &&& node.votes@.finite()
                &&& node.votes@.insert(from).len() + 1 >= node.config.peers@.len() / 2 + 1
            } ==> {
                &&& final(node).role == Role::Leader
                &&& final(node).current_term == node.current_term
                &&& node.config.peers@.contains(other) && other != node.config.node_id
                    ==> exists|k: int|
                    0 <= k < out.sends@.len() && (#[trigger] out.sends@[k]).to == other
                        && out.sends@[k].msg is AppendEntries
            },
{
    assert forall|node: &mut RaftNode, out: NodeOutput| #[trigger]
        call_ensures(RaftNode::handle_event, (node, NodeEvent::Receive(vote), report), out) && {
            &&& node.role == Role::Candidate
            &&& vote->RequestVoteResponse_term == node.current_term
            &&& node.config.peers@.contains(from)
            &&& from != node.config.node_id
            &&& node.votes@.finite()
            &&& node.votes@.insert(from).len() + 1 >= node.config.peers@.len() / 2 + 1
        } implies {
        &&& final(node).role == Role::Leader
        &&& final(node).current_term == node.current_term
        &&& node.config.peers@.contains(other) && other != node.config.node_id ==> exists|k: int|
            0 <= k < out.sends@.len() && (#[trigger] out.sends@[k]).to == other
                && out.sends@[k].msg is AppendEntries
    } by {
        let s = node@;
        votes_of_a_majority_elect(s, from, report.completed as nat, report.error@);
        let r = s.react(Event::Receive(vote@), report.completed as nat, report.error@);
        assert(final(node)@ == r.state);
        let sends = envelopes(out.sends@);
        assert(sends == r.sends);
        if s.peers.contains(other) && other != s.id {
            let k = choose|k: int| 0 <= k < sends.len() && (#[trigger] sends[k]).to == other;
            assert(sends[k] == out.sends@[k]@);
            assert(sends[k].msg is AppendEntries);
        }
    }
}

/// After a leader with room has handled a proposal that could be stored, its log ends with
/// the command, in its term, and the answer tells where.
pub proof fn handling_a_proposal_appends_it(command: Vec<u8>, report: &StorageReport)
    requires
        report.completed >= 1,
    ensures
        forall|node: &mut RaftNode, out: NodeOutput| #[trigger]
            call_ensures(RaftNode::handle_event, (node, NodeEvent::Propose(command), report), out)
                && {
                &&& node.role == Role::Leader
                &&& contiguous(node@.log.entries)
                &&& node.log.commit_index <= node.log.entries@.len() < u64::MAX
                &&& node.log.entries@.len() - node.log.commit_index
                    < node.config.max_uncommitted_entries
                &&& node.config.peers@.len() >= 2
            } ==> {
                let n = node.log.entries@.len();
                &&& final(node)@.log.entries.len() == n + 1
                &&& final(node)@.log.entries.take(n as int) == node@.log.entries
                &&& final(node)@.log.entries[n as int].command == command@
                &&& final(node)@.log.entries[n as int].term == node.current_term
                &&& final(node)@.log.entries[n as int].index == n + 1
                &&& out.reply matches Some(Ok(p)) && p.index == n + 1 && p.term == node.current_term
            },
{
    assert forall|node: &mut RaftNode, out: NodeOutput| #[trigger]
        call_ensures(RaftNode::handle_event, (node, NodeEvent::Propose(command), report), out) && {
            &&& node.role == Role::Leader
            &&& contiguous(node@.log.entries)
            &&& node.log.commit_index <= node.log.entries@.len() < u64::MAX
            &&& node.log.entries@.len() - node.log.commit_index
                < node.config.max_uncommitted_entries
            &&& node.config.peers@.len() >= 2
        } implies {
        let n = node.log.entries@.len();
        &&& final(node)@.log.entries.len() == n + 1
        &&& final(node)@.log.entries.take(n as int) == node@.log.entries
        &&& final(node)@.log.entries[n as int].command == command@
        &&& final(node)@.log.entries[n as int].term == node.current_term
        &&& final(node)@.log.entries[n as int].index == n + 1
        &&& out.reply matches Some(Ok(p)) && p.index == n + 1 && p.term == node.current_term
    } by {
        let s = node@;
        proposals_are_appended(s, command@, report.completed as nat, report.error@);
        let n = s.log.entries.len() as int;
        assert(final(node)@.log.entries.take(n) =~= s.log.entries);
    }
}

/// The node that a run of events is handled by draws a new election timeout on every
/// message and every expired timer, as long as it does not lead; a leader does when a
/// message deposes it.
pub proof fn timers_are_drawn_anew(event: NodeEvent, report: &StorageReport)
    ensures
        forall|node: &mut RaftNode, out: NodeOutput| #[trigger]
            call_ensures(RaftNode::handle_event, (node, event, report), out) ==> {
                &&& event is Receive && node.role != Role::Leader ==> out.reset_election_timer
                &&& event is Receive && final(node).role != Role::Leader
                    ==> out.reset_election_timer
                &&& event is ElectionTimeout && node.role != Role::Leader
                    ==> out.reset_election_timer
                &&& node.role == Role::Leader && final(node).role == Role::Leader
                    ==> !out.reset_election_timer
                &&& event is HeartbeatTick || event is Propose ==> !out.reset_election_timer
                &&& out.reply is Some <==> event is Propose
            },
{
    assert forall|node: &mut RaftNode, out: NodeOutput| #[trigger]
        call_ensures(RaftNode::handle_event, (node, event, report), out) implies {
        &&& event is Receive && node.role != Role::Leader ==> out.reset_election_timer
        &&& event is Receive && final(node).role != Role::Leader ==> out.reset_election_timer
        &&& event is ElectionTimeout && node.role != Role::Leader ==> out.reset_election_timer
        &&& node.role == Role::Leader && final(node).role == Role::Leader
            ==> !out.reset_election_timer
        &&& event is HeartbeatTick || event is Propose ==> !out.reset_election_timer
        &&& out.reply is Some <==> event is Propose
    } by {
        assert(final(node)@.role == final(node).role);
        assert(node@.role == node.role);
    }
}

/// After a node has handled a request for its vote, it has answered the candidate, and it
/// has given the vote exactly if the candidate's term is not behind, the node had not voted
/// for another in that term, and the candidate's log is not behind its own.
pub proof fn handling_a_request_gives_the_vote_once(
    request: RaftMessage,
    report: &StorageReport,
    candidate: u64,
)
    requires
        request matches RaftMessage::RequestVote { candidate_id, .. } && candidate_id == candidate,
    ensures
        forall|node: &mut RaftNode, out: NodeOutput| #[trigger]
            call_ensures(RaftNode::handle_event, (node, NodeEvent::Receive(request), report), out)
                ==> {
                let term = request->RequestVote_term;
                let granted = term >= node.current_term && (term > node.current_term
                    || node.voted_for is None || node.voted_for == Some(candidate))
                    && reaches_as_far(
                    node@.log.entries,
                    request->RequestVote_last_log_index,
                    request->RequestVote_last_log_term,
                );
                &&& out.sends@.len() == 1
                &&& out.sends@[0].to == candidate
                &&& out.sends@[0].msg is RequestVoteResponse
                &&& out.sends@[0].msg->RequestVoteResponse_vote_granted == granted
                &&& granted ==> final(node).voted_for == Some(candidate)
                &&& !granted && term <= node.current_term ==> final(node).voted_for
                    == node.voted_for
                &&& final(node)@.log == node@.log
            },
{
    assert forall|node: &mut RaftNode, out: NodeOutput| #[trigger]
        call_ensures(
            RaftNode::handle_event,
            (node, NodeEvent::Receive(request), report),
            out,
        ) implies {
        let term = request->RequestVote_term;
        let granted = term >= node.current_term && (term > node.current_term || node.voted_for
            is None || node.voted_for == Some(candidate)) && reaches_as_far(
            node@.log.entries,
            request->RequestVote_last_log_index,
            request->RequestVote_last_log_term,
        );
        &&& out.sends@.len() == 1
        &&& out.sends@[0].to == candidate
        &&& out.sends@[0].msg is RequestVoteResponse
        &&& out.sends@[0].msg->RequestVoteResponse_vote_granted == granted
        &&& granted ==> final(node).voted_for == Some(candidate)
        &&& !granted && term <= node.current_term ==> final(node).voted_for == node.voted_for
        &&& final(node)@.log == node@.log
    } by {
        let s = node@;
        let index = request->RequestVote_last_log_index;
        let log_term = request->RequestVote_last_log_term;
        let term = request->RequestVote_term;
        votes_are_given_to_the_up_to_date(
            s,
            term,
            candidate,
            index,
            log_term,
            report.completed as nat,
            report.error@,
        );
        let r = s.react(Event::Receive(request@), report.completed as nat, report.error@);
        let sends = envelopes(out.sends@);
        assert(sends == r.sends);
        assert(sends[0] == out.sends@[0]@);
        assert(final(node)@ == r.state);
    }
}

/// After the committed entries were applied, and the machine accepted them all, the machine
/// is where those entries take it, and nothing is left to apply.
pub proof fn applying_catches_up_with_the_commit_index<M: StateMachine>()
    ensures
        forall|node: &mut RaftNode, machine: &mut M, out: ()| #[trigger]
            call_ensures(RaftNode::apply_committed_entries::<M>, (node, machine), out) && {
                let log = node@.log;
                &&& contiguous(log.entries)
                &&& log.applied < log.commit <= log.entries.len()
                &&& accepted_count::<M>(
                    machine.state(),
                    log.entries.subrange(log.applied as int, log.commit as int),
                ) == log.commit - log.applied
            } ==> {
                let log = node@.log;
                &&& final(machine).state() == state_after::<M>(
                    machine.state(),
                    log.entries.subrange(log.applied as int, log.commit as int),
                )
                &&& final(node)@.log.applied == log.commit
                &&& final(node)@.log.entries == log.entries
                &&& final(node)@.log.commit == log.commit
                &&& final(node)@.term == node@.term
                &&& final(node)@.role == node@.role
            },
{
    assert forall|node: &mut RaftNode, machine: &mut M, out: ()| #[trigger]
        call_ensures(RaftNode::apply_committed_entries::<M>, (node, machine), out) && {
            let log = node@.log;
            &&& contiguous(log.entries)
            &&& log.applied < log.commit <= log.entries.len()
            &&& accepted_count::<M>(
                machine.state(),
                log.entries.subrange(log.applied as int, log.commit as int),
            ) == log.commit - log.applied
        } implies {
        let log = node@.log;
        &&& final(machine).state() == state_after::<M>(
            machine.state(),
            log.entries.subrange(log.applied as int, log.commit as int),
        )
        &&& final(node)@.log.applied == log.commit
        &&& final(node)@.log.entries == log.entries
        &&& final(node)@.log.commit == log.commit
        &&& final(node)@.term == node@.term
        &&& final(node)@.role == node@.role
    } by {
        let log = node@.log;
        let due = log.entries.subrange(log.applied as int, log.commit as int);
        let n = log.commit - log.applied;
        ranges_go_from_index_to_index(log.entries, log.applied + 1, log.commit as int);
        assert(log.unapplied() == due);
        assert(due.take(n) =~= due);
        assert(due[n - 1] == log.entries[log.commit - 1]);
    }
}

} // verus!
