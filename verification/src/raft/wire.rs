//! Binary encoding of Raft messages.

use vstd::prelude::*;
use vstd::string::*;

use crate::encoding::{
    blob_bytes, bool_bytes, put_blob, put_bool, put_u32, put_u64, read_blob, read_blob_back,
    read_bool, read_bool_back, read_u32, read_u32_back, read_u64, read_u64_back, u32_bytes,
    u64_bytes, Reader,
};
use crate::net::error::NetError;
use crate::raft::message::{entry_views, Entry, LogEntry, Message, RaftMessage};
use crate::text::{owned, push_decimal};

verus! {

/// The encoding of a log entry.
pub open spec fn entry_bytes(e: Entry) -> Seq<u8> {
    u64_bytes(e.index) + u64_bytes(e.term) + blob_bytes(e.command)
}

/// The encodings of log entries, one after the other.
pub open spec fn entries_bytes(entries: Seq<Entry>) -> Seq<u8>
    decreases entries.len(),
{
    if entries.len() == 0 {
        Seq::empty()
    } else {
        entries_bytes(entries.drop_last()) + entry_bytes(entries.last())
    }
}

/// The encoding of a request for a vote or a pre-vote, after its tag.
pub open spec fn ballot_bytes(term: u64, candidate: u64, index: u64, last_term: u64) -> Seq<u8> {
    u64_bytes(term) + u64_bytes(candidate) + u64_bytes(index) + u64_bytes(last_term)
}

/// The encoding of a vote or a pre-vote, after its tag.
pub open spec fn vote_bytes(term: u64, granted: bool, from: u64) -> Seq<u8> {
    u64_bytes(term) + bool_bytes(granted) + u64_bytes(from)
}

/// The encoding of a message.
pub open spec fn raft_bytes(m: Message) -> Seq<u8> {
    match m {
        Message::RequestVote { term, candidate_id, last_log_index, last_log_term } => u32_bytes(0)
            + ballot_bytes(term, candidate_id, last_log_index, last_log_term),
        Message::RequestVoteResponse { term, vote_granted, from } => u32_bytes(1) + vote_bytes(
            term,
            vote_granted,
            from,
        ),
        Message::PreVote { term, candidate_id, last_log_index, last_log_term } => u32_bytes(2)
            + ballot_bytes(term, candidate_id, last_log_index, last_log_term),
        Message::PreVoteResponse { term, vote_granted, from } => u32_bytes(3) + vote_bytes(
            term,
            vote_granted,
            from,
        ),
        Message::AppendEntries {
            term,
            leader_id,
            prev_log_index,
            prev_log_term,
            entries,
            leader_commit,
        } => u32_bytes(4) + ballot_bytes(term, leader_id, prev_log_index, prev_log_term)
            + u64_bytes(entries.len() as u64) + entries_bytes(entries) + u64_bytes(leader_commit),
        Message::AppendEntriesResponse { term, success, match_index, from } => u32_bytes(5)
            + u64_bytes(term) + bool_bytes(success) + u64_bytes(match_index) + u64_bytes(from),
    }
}

/// The entry that an input begins with, and what follows it.
pub open spec fn read_entry(input: Seq<u8>) -> Option<(Entry, Seq<u8>)> {
    match read_u64(input) {
        Some((index, rest)) => match read_u64(rest) {
            Some((term, rest)) => match read_blob(rest) {
                Some((command, rest)) => Some((Entry { index, term, command }, rest)),
                None => None,
            },
            None => None,
        },
        None => None,
    }
}

/// The `n` entries that an input begins with, and what follows them.
pub open spec fn read_entries(n: nat, input: Seq<u8>) -> Option<(Seq<Entry>, Seq<u8>)>
    decreases n,
{
    if n == 0 {
        Some((Seq::empty(), input))
    } else {
        match read_entries((n - 1) as nat, input) {
            Some((entries, rest)) => match read_entry(rest) {
                Some((e, rest)) => Some((entries.push(e), rest)),
                None => None,
            },
            None => None,
        }
    }
}

/// The four numbers that an input begins with, and what follows them.
pub open spec fn read_four(input: Seq<u8>) -> Option<((u64, u64, u64, u64), Seq<u8>)> {
    match read_u64(input) {
        Some((a, rest)) => match read_u64(rest) {
            Some((b, rest)) => match read_u64(rest) {
                Some((c, rest)) => match read_u64(rest) {
                    Some((d, rest)) => Some(((a, b, c, d), rest)),
                    None => None,
                },
                None => None,
            },
            None => None,
        },
        None => None,
    }
}

/// The body of a vote.
pub open spec fn read_vote(input: Seq<u8>) -> Option<((u64, bool, u64), Seq<u8>)> {
    match read_u64(input) {
        Some((term, rest)) => match read_bool(rest) {
            Some((granted, rest)) => match read_u64(rest) {
                Some((from, rest)) => Some(((term, granted, from), rest)),
                None => None,
            },
            None => None,
        },
        None => None,
    }
}

/// The body of an append request.
pub open spec fn read_append(input: Seq<u8>) -> Option<(Message, Seq<u8>)> {
    match read_four(input) {
        Some(((term, leader_id, prev_log_index, prev_log_term), rest)) => match read_u64(rest) {
            Some((n, rest)) => match read_entries(n as nat, rest) {
                Some((entries, rest)) => match read_u64(rest) {
                    Some((leader_commit, rest)) => Some(
                        (
                            Message::AppendEntries {
                                term,
                                leader_id,
                                prev_log_index,
                                prev_log_term,
                                entries,
                                leader_commit,
                            },
                            rest,
                        ),
                    ),
                    None => None,
                },
                None => None,
            },
            None => None,
        },
        None => None,
    }
}

/// The body of an append response.
pub open spec fn read_append_response(input: Seq<u8>) -> Option<(Message, Seq<u8>)> {
    match read_u64(input) {
        Some((term, rest)) => match read_bool(rest) {
            Some((success, rest)) => match read_u64(rest) {
                Some((match_index, rest)) => match read_u64(rest) {
                    Some((from, rest)) => Some(
                        (
                            Message::AppendEntriesResponse { term, success, match_index, from },
                            rest,
                        ),
                    ),
                    None => None,
                },
                None => None,
            },
            None => None,
        },
        None => None,
    }
}

/// The message that an input begins with, and what follows it.
pub open spec fn read_raft(input: Seq<u8>) -> Option<(Message, Seq<u8>)> {
    match read_u32(input) {
        Some((0, rest)) => match read_four(rest) {
            Some(((term, candidate_id, last_log_index, last_log_term), rest)) => Some(
                (
                    Message::RequestVote { term, candidate_id, last_log_index, last_log_term },
                    rest,
                ),
            ),
            None => None,
        },
        Some((1, rest)) => match read_vote(rest) {
            Some(((term, vote_granted, from), rest)) => Some(
                (Message::RequestVoteResponse { term, vote_granted, from }, rest),
            ),
            None => None,
        },
        Some((2, rest)) => match read_four(rest) {
            Some(((term, candidate_id, last_log_index, last_log_term), rest)) => Some(
                (Message::PreVote { term, candidate_id, last_log_index, last_log_term }, rest),
            ),
            None => None,
        },
        Some((3, rest)) => match read_vote(rest) {
            Some(((term, vote_granted, from), rest)) => Some(
                (Message::PreVoteResponse { term, vote_granted, from }, rest),
            ),
            None => None,
        },
        Some((4, rest)) => read_append(rest),
        Some((5, rest)) => read_append_response(rest),
        _ => None,
    }
}

proof fn entry_reads_back(e: Entry, tail: Seq<u8>)
    requires
        (entry_bytes(e) + tail).len() <= u64::MAX,
    ensures
        read_entry(entry_bytes(e) + tail) == Some((e, tail)),
{
    let b = blob_bytes(e.command) + tail;
    let a = u64_bytes(e.term) + b;
    assert(entry_bytes(e) + tail =~= u64_bytes(e.index) + a);
    read_u64_back(e.index, a);
    read_u64_back(e.term, b);
    read_blob_back(e.command, tail);
}

proof fn entries_read_back(entries: Seq<Entry>, tail: Seq<u8>)
    requires
        (entries_bytes(entries) + tail).len() <= u64::MAX,
    ensures
        read_entries(entries.len(), entries_bytes(entries) + tail) == Some((entries, tail)),
    decreases entries.len(),
{
    if entries.len() == 0 {
        assert(entries_bytes(entries) + tail =~= tail);
        assert(entries =~= Seq::empty());
    } else {
        let last = entry_bytes(entries.last()) + tail;
        assert(entries_bytes(entries) + tail =~= entries_bytes(entries.drop_last()) + last);
        entries_read_back(entries.drop_last(), last);
        entry_reads_back(entries.last(), tail);
        assert(entries.drop_last().push(entries.last()) =~= entries);
    }
}

proof fn four_read_back(a: u64, b: u64, c: u64, d: u64, tail: Seq<u8>)
    ensures
        read_four(ballot_bytes(a, b, c, d) + tail) == Some(((a, b, c, d), tail)),
{
    let z = u64_bytes(d) + tail;
    let y = u64_bytes(c) + z;
    let x = u64_bytes(b) + y;
    assert(ballot_bytes(a, b, c, d) + tail =~= u64_bytes(a) + x);
    read_u64_back(a, x);
    read_u64_back(b, y);
    read_u64_back(c, z);
    read_u64_back(d, tail);
}

proof fn vote_reads_back(term: u64, granted: bool, from: u64, tail: Seq<u8>)
    ensures
        read_vote(vote_bytes(term, granted, from) + tail) == Some(((term, granted, from), tail)),
{
    let y = u64_bytes(from) + tail;
    let x = bool_bytes(granted) + y;
    assert(vote_bytes(term, granted, from) + tail =~= u64_bytes(term) + x);
    read_u64_back(term, x);
    read_bool_back(granted, y);
    read_u64_back(from, tail);
}

/// A message that was encoded is read back from the front of any input.
pub proof fn raft_round_trip(m: Message, tail: Seq<u8>)
    requires
        (raft_bytes(m) + tail).len() <= u64::MAX,
        m matches Message::AppendEntries { entries, .. } ==> entries.len() <= u64::MAX,
    ensures
        read_raft(raft_bytes(m) + tail) == Some((m, tail)),
{
    let input = raft_bytes(m) + tail;
    match m {
        Message::RequestVote { term, candidate_id, last_log_index, last_log_term } => {
            let a = ballot_bytes(term, candidate_id, last_log_index, last_log_term) + tail;
            assert(input =~= u32_bytes(0) + a);
            read_u32_back(0, a);
            four_read_back(term, candidate_id, last_log_index, last_log_term, tail);
        },
        Message::RequestVoteResponse { term, vote_granted, from } => {
            let a = vote_bytes(term, vote_granted, from) + tail;
            assert(input =~= u32_bytes(1) + a);
            read_u32_back(1, a);
            vote_reads_back(term, vote_granted, from, tail);
        },
        Message::PreVote { term, candidate_id, last_log_index, last_log_term } => {
            let a = ballot_bytes(term, candidate_id, last_log_index, last_log_term) + tail;
            assert(input =~= u32_bytes(2) + a);
            read_u32_back(2, a);
            four_read_back(term, candidate_id, last_log_index, last_log_term, tail);
        },
        Message::PreVoteResponse { term, vote_granted, from } => {
            let a = vote_bytes(term, vote_granted, from) + tail;
            assert(input =~= u32_bytes(3) + a);
            read_u32_back(3, a);
            vote_reads_back(term, vote_granted, from, tail);
        },
        Message::AppendEntries {
            term,
            leader_id,
            prev_log_index,
            prev_log_term,
            entries,
            leader_commit,
        } => {
            let d = u64_bytes(leader_commit) + tail;
            let c = entries_bytes(entries) + d;
            let b = u64_bytes(entries.len() as u64) + c;
            let a = ballot_bytes(term, leader_id, prev_log_index, prev_log_term) + b;
            assert(input =~= u32_bytes(4) + a);
            read_u32_back(4, a);
            four_read_back(term, leader_id, prev_log_index, prev_log_term, b);
            read_u64_back(entries.len() as u64, c);
            entries_read_back(entries, d);
            read_u64_back(leader_commit, tail);
        },
        Message::AppendEntriesResponse { term, success, match_index, from } => {
            let d = u64_bytes(from) + tail;
            let c = u64_bytes(match_index) + d;
            let b = bool_bytes(success) + c;
            let a = u64_bytes(term) + b;
            assert(input =~= u32_bytes(5) + a);
            read_u32_back(5, a);
            read_u64_back(term, b);
            read_bool_back(success, c);
            read_u64_back(match_index, d);
            read_u64_back(from, tail);
        },
    }
}

fn put_entry(out: &mut Vec<u8>, e: &LogEntry)
    ensures
        final(out)@ == old(out)@ + entry_bytes(e@),
{
    put_u64(out, e.index);
    put_u64(out, e.term);
    put_blob(out, &e.command);
    assert(out@ =~= old(out)@ + entry_bytes(e@));
}

fn put_entries(out: &mut Vec<u8>, entries: &Vec<LogEntry>)
    ensures
        final(out)@ == old(out)@ + entries_bytes(entry_views(entries@)),
{
    let ghost views = entry_views(entries@);
    let mut i: usize = 0;
    assert(out@ + entries_bytes(views.take(0)) =~= out@);
    while i < entries.len()
        invariant
            i <= entries@.len(),
            views == entry_views(entries@),
            out@ == old(out)@ + entries_bytes(views.take(i as int)),
        decreases entries@.len() - i,
    {
        put_entry(out, &entries[i]);
        proof {
            let next = views.take(i + 1);
            assert(next.drop_last() =~= views.take(i as int));
            assert(out@ =~= old(out)@ + entries_bytes(next));
        }
        i += 1;
    }
    assert(views.take(i as int) =~= views);
}

fn put_four(out: &mut Vec<u8>, a: u64, b: u64, c: u64, d: u64)
    ensures
        final(out)@ == old(out)@ + ballot_bytes(a, b, c, d),
{
    put_u64(out, a);
    put_u64(out, b);
    put_u64(out, c);
    put_u64(out, d);
    assert(out@ =~= old(out)@ + ballot_bytes(a, b, c, d));
}

fn put_vote(out: &mut Vec<u8>, term: u64, granted: bool, from: u64)
    ensures
        final(out)@ == old(out)@ + vote_bytes(term, granted, from),
{
    put_u64(out, term);
    put_bool(out, granted);
    put_u64(out, from);
    assert(out@ =~= old(out)@ + vote_bytes(term, granted, from));
}

/// Encode a message.
pub fn encode(m: &RaftMessage) -> (out: Vec<u8>)
    ensures
        out@ == raft_bytes(m@),
{
    let mut out: Vec<u8> = Vec::new();
    match m {
        RaftMessage::RequestVote { term, candidate_id, last_log_index, last_log_term } => {
            put_u32(&mut out, 0);
            put_four(&mut out, *term, *candidate_id, *last_log_index, *last_log_term);
        },
        RaftMessage::RequestVoteResponse { term, vote_granted, from } => {
            put_u32(&mut out, 1);
            put_vote(&mut out, *term, *vote_granted, *from);
        },
        RaftMessage::PreVote { term, candidate_id, last_log_index, last_log_term } => {
            put_u32(&mut out, 2);
            put_four(&mut out, *term, *candidate_id, *last_log_index, *last_log_term);
        },
        RaftMessage::PreVoteResponse { term, vote_granted, from } => {
            put_u32(&mut out, 3);
            put_vote(&mut out, *term, *vote_granted, *from);
        },
        RaftMessage::AppendEntries {
            term,
            leader_id,
            prev_log_index,
            prev_log_term,
            entries,
            leader_commit,
        } => {
            put_u32(&mut out, 4);
            put_four(&mut out, *term, *leader_id, *prev_log_index, *prev_log_term);
            put_u64(&mut out, entries.len() as u64);
            put_entries(&mut out, entries);
            put_u64(&mut out, *leader_commit);
        },
        RaftMessage::AppendEntriesResponse { term, success, match_index, from } => {
            put_u32(&mut out, 5);
            put_u64(&mut out, *term);
            put_bool(&mut out, *success);
            put_u64(&mut out, *match_index);
            put_u64(&mut out, *from);
        },
    }
    assert(out@ =~= raft_bytes(m@));
    out
}

fn get_entry(reader: &mut Reader) -> (r: Result<LogEntry, String>)
    ensures
        match r {
            Ok(e) => read_entry(old(reader).rest()) == Some((e@, final(reader).rest())),
            Err(_) => read_entry(old(reader).rest()) is None,
        },
{
    let index: u64 = match reader.get_u64() {
        Ok(v) => v,
        Err(e) => return Err(e),
    };
    let term: u64 = match reader.get_u64() {
        Ok(v) => v,
        Err(e) => return Err(e),
    };
    let command = match reader.get_blob() {
        Ok(v) => v,
        Err(e) => return Err(e),
    };
    Ok(LogEntry { index, term, command })
}

/// Reading more entries fails where reading fewer does.
proof fn read_entries_fails(n: nat, m: nat, input: Seq<u8>)
    requires
        n <= m,
        read_entries(n, input) is None,
    ensures
        read_entries(m, input) is None,
    decreases m,
{
    if n < m {
        read_entries_fails(n, (m - 1) as nat, input);
    }
}

fn get_entries(reader: &mut Reader, n: u64) -> (r: Result<Vec<LogEntry>, String>)
    ensures
        match r {
            Ok(entries) => read_entries(n as nat, old(reader).rest()) == Some(
                (entry_views(entries@), final(reader).rest()),
            ),
            Err(_) => read_entries(n as nat, old(reader).rest()) is None,
        },
{
    let ghost start = reader.rest();
    let mut entries: Vec<LogEntry> = Vec::new();
    let mut i: u64 = 0;
    assert(entry_views(entries@) =~= Seq::empty());
    while i < n
        invariant
            i <= n,
            start == old(reader).rest(),
            read_entries(i as nat, start) == Some((entry_views(entries@), reader.rest())),
        decreases n - i,
    {
        match get_entry(reader) {
            Ok(e) => {
                let ghost before = entry_views(entries@);
                entries.push(e);
                assert(entry_views(entries@) =~= before.push(e@));
                i += 1;
            },
            Err(e) => {
                proof {
                    read_entries_fails((i + 1) as nat, n as nat, start);
                }
                return Err(e);
            },
        }
    }
    Ok(entries)
}

fn get_four(reader: &mut Reader) -> (r: Result<(u64, u64, u64, u64), String>)
    ensures
        match r {
            Ok(v) => read_four(old(reader).rest()) == Some((v, final(reader).rest())),
            Err(_) => read_four(old(reader).rest()) is None,
        },
{
    let a: u64 = match reader.get_u64() {
        Ok(v) => v,
        Err(e) => return Err(e),
    };
    let b: u64 = match reader.get_u64() {
        Ok(v) => v,
        Err(e) => return Err(e),
    };
    let c: u64 = match reader.get_u64() {
        Ok(v) => v,
        Err(e) => return Err(e),
    };
    let d: u64 = match reader.get_u64() {
        Ok(v) => v,
        Err(e) => return Err(e),
    };
    Ok((a, b, c, d))
}

fn get_vote(reader: &mut Reader) -> (r: Result<(u64, bool, u64), String>)
    ensures
        match r {
            Ok(v) => read_vote(old(reader).rest()) == Some((v, final(reader).rest())),
            Err(_) => read_vote(old(reader).rest()) is None,
        },
{
    let term: u64 = match reader.get_u64() {
        Ok(v) => v,
        Err(e) => return Err(e),
    };
    let granted: bool = match reader.get_bool() {
        Ok(v) => v,
        Err(e) => return Err(e),
    };
    let from: u64 = match reader.get_u64() {
        Ok(v) => v,
        Err(e) => return Err(e),
    };
    Ok((term, granted, from))
}

fn get_append(reader: &mut Reader) -> (r: Result<RaftMessage, String>)
    ensures
        match r {
            Ok(m) => read_append(old(reader).rest()) == Some((m@, final(reader).rest())),
            Err(_) => read_append(old(reader).rest()) is None,
        },
{
    let (term, leader_id, prev_log_index, prev_log_term): (u64, u64, u64, u64) = match get_four(
        reader,
    ) {
        Ok(v) => v,
        Err(e) => return Err(e),
    };
    let n: u64 = match reader.get_u64() {
        Ok(v) => v,
        Err(e) => return Err(e),
    };
    let entries = match get_entries(reader, n) {
        Ok(v) => v,
        Err(e) => return Err(e),
    };
    let leader_commit: u64 = match reader.get_u64() {
        Ok(v) => v,
        Err(e) => return Err(e),
    };
    Ok(
        RaftMessage::AppendEntries {
            term,
            leader_id,
            prev_log_index,
            prev_log_term,
            entries,
            leader_commit,
        },
    )
}

fn get_append_response(reader: &mut Reader) -> (r: Result<RaftMessage, String>)
    ensures
        match r {
            Ok(m) => read_append_response(old(reader).rest()) == Some((m@, final(reader).rest())),
            Err(_) => read_append_response(old(reader).rest()) is None,
        },
{
    let term: u64 = match reader.get_u64() {
        Ok(v) => v,
        Err(e) => return Err(e),
    };
    let success: bool = match reader.get_bool() {
        Ok(v) => v,
        Err(e) => return Err(e),
    };
    let match_index: u64 = match reader.get_u64() {
        Ok(v) => v,
        Err(e) => return Err(e),
    };
    let from: u64 = match reader.get_u64() {
        Ok(v) => v,
        Err(e) => return Err(e),
    };
    Ok(RaftMessage::AppendEntriesResponse { term, success, match_index, from })
}

/// Read a message from an input.
fn get_message(reader: &mut Reader) -> (r: Result<RaftMessage, String>)
    ensures
        match r {
            Ok(m) => read_raft(old(reader).rest()) == Some((m@, final(reader).rest())),
            Err(_) => read_raft(old(reader).rest()) is None,
        },
{
    match reader.get_u32() {
        Ok(0) => match get_four(reader) {
            Ok((term, candidate_id, last_log_index, last_log_term)) => Ok(
                RaftMessage::RequestVote { term, candidate_id, last_log_index, last_log_term },
            ),
            Err(e) => Err(e),
        },
        Ok(1) => match get_vote(reader) {
            Ok((term, vote_granted, from)) => Ok(
                RaftMessage::RequestVoteResponse { term, vote_granted, from },
            ),
            Err(e) => Err(e),
        },
        Ok(2) => match get_four(reader) {
            Ok((term, candidate_id, last_log_index, last_log_term)) => Ok(
                RaftMessage::PreVote { term, candidate_id, last_log_index, last_log_term },
            ),
            Err(e) => Err(e),
        },
        Ok(3) => match get_vote(reader) {
            Ok((term, vote_granted, from)) => Ok(
                RaftMessage::PreVoteResponse { term, vote_granted, from },
            ),
            Err(e) => Err(e),
        },
        Ok(4) => get_append(reader),
        Ok(5) => get_append_response(reader),
        Ok(tag) => {
            let mut e = owned("invalid value: integer `");
            push_decimal(&mut e, tag as u64);
            e.append("`, expected variant index 0 <= i < 6");
            Err(e)
        },
        Err(e) => Err(e),
    }
}

/// Decode a message. Bytes after it are ignored.
pub fn decode(bytes: &[u8]) -> (r: Result<RaftMessage, NetError>)
    ensures
        match r {
            Ok(m) => read_raft(bytes@) is Some && read_raft(bytes@)->Some_0.0 == m@,
            Err(e) => read_raft(bytes@) is None && e is Serialization,
        },
{
    let mut reader = Reader::new(bytes);
    match get_message(&mut reader) {
        Ok(m) => Ok(m),
        Err(e) => Err(NetError::Serialization(e)),
    }
}

/// A message goes over the wire as the number of its kind and then its fields in order,
/// entries as their number and then each as its index, its term and its command.
pub proof fn raft_messages_are_laid_out_in_order(m: Message)
    ensures
        match m {
            Message::RequestVote { term, candidate_id, last_log_index, last_log_term } =>
                raft_bytes(m) == u32_bytes(0) + u64_bytes(term) + u64_bytes(candidate_id)
                    + u64_bytes(last_log_index) + u64_bytes(last_log_term),
            Message::RequestVoteResponse { term, vote_granted, from } => raft_bytes(m) == u32_bytes(
                1,
            ) + u64_bytes(term) + bool_bytes(vote_granted) + u64_bytes(from),
            Message::PreVote { term, candidate_id, last_log_index, last_log_term } => raft_bytes(m)
                == u32_bytes(2) + u64_bytes(term) + u64_bytes(candidate_id) + u64_bytes(
                last_log_index,
            ) + u64_bytes(last_log_term),
            Message::PreVoteResponse { term, vote_granted, from } => raft_bytes(m) == u32_bytes(3)
                + u64_bytes(term) + bool_bytes(vote_granted) + u64_bytes(from),
            Message::AppendEntries {
                term,
                leader_id,
                prev_log_index,
                prev_log_term,
                entries,
                leader_commit,
            } => raft_bytes(m) == u32_bytes(4) + u64_bytes(term) + u64_bytes(leader_id) + u64_bytes(
                prev_log_index,
            ) + u64_bytes(prev_log_term) + u64_bytes(entries.len() as u64) + entries_bytes(entries)
                + u64_bytes(leader_commit),
            Message::AppendEntriesResponse { term, success, match_index, from } => raft_bytes(m)
                == u32_bytes(5) + u64_bytes(term) + bool_bytes(success) + u64_bytes(match_index)
                + u64_bytes(from),
        },
{
    match m {
        Message::RequestVote { term, candidate_id, last_log_index, last_log_term } => {
            assert(raft_bytes(m) =~= u32_bytes(0) + u64_bytes(term) + u64_bytes(candidate_id)
                + u64_bytes(last_log_index) + u64_bytes(last_log_term));
        },
        Message::RequestVoteResponse { term, vote_granted, from } => {
            assert(raft_bytes(m) =~= u32_bytes(1) + u64_bytes(term) + bool_bytes(vote_granted)
                + u64_bytes(from));
        },
        Message::PreVote { term, candidate_id, last_log_index, last_log_term } => {
            assert(raft_bytes(m) =~= u32_bytes(2) + u64_bytes(term) + u64_bytes(candidate_id)
                + u64_bytes(last_log_index) + u64_bytes(last_log_term));
        },
        Message::PreVoteResponse { term, vote_granted, from } => {
            assert(raft_bytes(m) =~= u32_bytes(3) + u64_bytes(term) + bool_bytes(vote_granted)
                + u64_bytes(from));
        },
        Message::AppendEntries {
            term,
            leader_id,
            prev_log_index,
            prev_log_term,
            entries,
            leader_commit,
        } => {
            assert(raft_bytes(m) =~= u32_bytes(4) + u64_bytes(term) + u64_bytes(leader_id)
                + u64_bytes(prev_log_index) + u64_bytes(prev_log_term) + u64_bytes(
                entries.len() as u64,
            ) + entries_bytes(entries) + u64_bytes(leader_commit));
        },
        Message::AppendEntriesResponse { .. } => {},
    }
}

/// Entries are laid out one after the other.
pub proof fn entries_follow_one_another(entries: Seq<Entry>, e: Entry)
    ensures
        entries_bytes(Seq::empty()).len() == 0,
        entries_bytes(entries.push(e)) == entries_bytes(entries) + (u64_bytes(e.index) + u64_bytes(
            e.term,
        ) + u64_bytes(e.command.len() as u64) + e.command),
{
    assert(entries.push(e).drop_last() =~= entries);
    let head = u64_bytes(e.index) + u64_bytes(e.term);
    let n = u64_bytes(e.command.len() as u64);
    assert(head + (n + e.command) =~= head + n + e.command);
}

/// A message that was encoded and then decoded is the same message.
pub proof fn decoding_undoes_encoding(
    m: RaftMessage,
    bytes: Vec<u8>,
    sent: &[u8],
    back: Result<RaftMessage, NetError>,
)
    requires
        call_ensures(encode, (&m,), bytes),
        sent@ == bytes@,
        call_ensures(decode, (sent,), back),
        bytes@.len() <= u64::MAX,
        m matches RaftMessage::AppendEntries { entries, .. } ==> entries@.len() <= u64::MAX,
    ensures
        back is Ok,
        back->Ok_0@ == m@,
{
    raft_round_trip(m@, Seq::empty());
    assert(raft_bytes(m@) + Seq::<u8>::empty() =~= raft_bytes(m@));
}

} // verus!
