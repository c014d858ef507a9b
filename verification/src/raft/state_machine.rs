//! Raft state machine.
//!
//! [`StateMachine`] is the interface between consensus and the application.
//! [`ClusterStateMachine`] is the workload store of the control plane.

use vstd::prelude::*;
use vstd::string::*;
use vstd::utf8::*;

use crate::collections::TextMap;
use crate::encoding::{
    blob_bytes, blob_unique, put_blob, put_text, put_u32, starts_with, starts_with_both,
    text_bytes, text_unique, u32_bytes, u32_unique, u64_bytes, Reader,
};
use crate::raft::error::RaftError;
use crate::raft::message::{Entry, LogEntry};
use crate::text::{owned, push_decimal};

verus! {

/// A deterministic state machine driven by the replicated log.
///
/// What an entry does is a function of the state and the entry, so nodes that
/// apply the same entries reach the same state; and applying an entry again
/// changes nothing.
pub trait StateMachine: Sized {
    /// The mathematical state.
    type State;

    /// The current state.
    spec fn state(&self) -> Self::State;

    /// Whether an entry can be applied.
    spec fn accepts(s: Self::State, entry: Entry) -> bool;

    /// The state after applying an entry that is accepted.
    spec fn applied(s: Self::State, entry: Entry) -> Self::State;

    /// The response to the client.
    spec fn response(s: Self::State, entry: Entry) -> Seq<u8>;

    /// Applying an entry again must not change the state.
    proof fn idempotent(s: Self::State, entry: Entry)
        requires
            Self::accepts(s, entry),
        ensures
            Self::accepts(Self::applied(s, entry), entry),
            Self::applied(Self::applied(s, entry), entry) == Self::applied(s, entry),
    ;

    /// Apply a committed log entry. An entry that cannot be applied leaves the
    /// state as it is.
    fn apply(&mut self, entry: &LogEntry) -> (r: Result<Vec<u8>, RaftError>)
        ensures
            r is Ok <==> Self::accepts(old(self).state(), entry@),
            r matches Ok(b) ==> b@ == Self::response(old(self).state(), entry@)
                && final(self).state() == Self::applied(old(self).state(), entry@),
            r is Err ==> final(self).state() == old(self).state(),
    ;

    /// A snapshot of the current state for debugging and observability.
    fn snapshot(&self) -> Vec<u8>;
}

/// How many of the entries, in order, the machine accepts before it refuses one.
pub open spec fn accepted_count<M: StateMachine>(s: M::State, entries: Seq<Entry>) -> nat
    decreases entries.len(),
{
    if entries.len() == 0 || !M::accepts(s, entries[0]) {
        0
    } else {
        1 + accepted_count::<M>(M::applied(s, entries[0]), entries.drop_first())
    }
}

/// The state after applying entries in order.
pub open spec fn state_after<M: StateMachine>(s: M::State, entries: Seq<Entry>) -> M::State
    decreases entries.len(),
{
    if entries.len() == 0 {
        s
    } else {
        state_after::<M>(M::applied(s, entries[0]), entries.drop_first())
    }
}

// ---------------------------------------------------------------------------
// Commands
// ---------------------------------------------------------------------------

/// Mathematical view of a [`ClusterCommand`].
#[verifier::ext_equal]
pub enum Command {
    SubmitWorkload { workload_id: Seq<char>, spec_bytes: Seq<u8> },
    UpdateStatus { workload_id: Seq<char>, status: Seq<char> },
    RemoveWorkload { workload_id: Seq<char> },
}

/// A state machine command for the cluster workload store.
#[derive(Debug, Clone)]
pub enum ClusterCommand {
    /// Schedule a workload onto the cluster.
    SubmitWorkload {
        /// Unique workload identifier.
        workload_id: String,
        /// Serialized workload specification.
        spec: Vec<u8>,
    },
    /// Update the status of a workload.
    UpdateStatus {
        /// Workload identifier.
        workload_id: String,
        /// New status string.
        status: String,
    },
    /// Remove a workload from the cluster.
    RemoveWorkload {
        /// Workload identifier.
        workload_id: String,
    },
}

impl View for ClusterCommand {
    type V = Command;

    open spec fn view(&self) -> Command {
        match *self {
            ClusterCommand::SubmitWorkload { workload_id, spec } => Command::SubmitWorkload {
                workload_id: workload_id@,
                spec_bytes: spec@,
            },
            ClusterCommand::UpdateStatus { workload_id, status } => Command::UpdateStatus {
                workload_id: workload_id@,
                status: status@,
            },
            ClusterCommand::RemoveWorkload { workload_id } => Command::RemoveWorkload {
                workload_id: workload_id@,
            },
        }
    }
}

/// The encoding of a command.
pub open spec fn command_bytes(c: Command) -> Seq<u8> {
    match c {
        Command::SubmitWorkload { workload_id, spec_bytes } => u32_bytes(0) + text_bytes(
            workload_id,
        ) + blob_bytes(spec_bytes),
        Command::UpdateStatus { workload_id, status } => u32_bytes(1) + text_bytes(workload_id)
            + text_bytes(status),
        Command::RemoveWorkload { workload_id } => u32_bytes(2) + text_bytes(workload_id),
    }
}

/// The command that an input encodes, if it encodes one.
pub open spec fn command_in(input: Seq<u8>) -> Option<Command> {
    if exists|c: Command| starts_with(input, command_bytes(c)) {
        Some(choose|c: Command| starts_with(input, command_bytes(c)))
    } else {
        None
    }
}

proof fn text_len(v: Seq<char>)
    ensures
        text_bytes(v).len() == 8 + encode_utf8(v).len(),
{
    vstd::bytes::lemma_auto_spec_u64_to_from_le_bytes();
}

proof fn blob_len(v: Seq<u8>)
    ensures
        blob_bytes(v).len() == 8 + v.len(),
{
    vstd::bytes::lemma_auto_spec_u64_to_from_le_bytes();
}

/// The parts of an encoded command follow one another.
proof fn command_parts(input: Seq<u8>, c: Command)
    ensures
        ({
            let tag: u32 = match c {
                Command::SubmitWorkload { .. } => 0,
                Command::UpdateStatus { .. } => 1,
                Command::RemoveWorkload { .. } => 2,
            };
            let id = match c {
                Command::SubmitWorkload { workload_id, .. } => workload_id,
                Command::UpdateStatus { workload_id, .. } => workload_id,
                Command::RemoveWorkload { workload_id } => workload_id,
            };
            let tail = input.skip(4).skip(text_bytes(id).len() as int);
            starts_with(input, command_bytes(c)) <==> {
                &&& starts_with(input, u32_bytes(tag))
                &&& starts_with(input.skip(4), text_bytes(id))
                &&& match c {
                    Command::SubmitWorkload { spec_bytes, .. } => starts_with(
                        tail,
                        blob_bytes(spec_bytes),
                    ),
                    Command::UpdateStatus { status, .. } => starts_with(tail, text_bytes(status)),
                    Command::RemoveWorkload { .. } => true,
                }
            }
        }),
{
    vstd::bytes::lemma_auto_spec_u32_to_from_le_bytes();
    match c {
        Command::SubmitWorkload { workload_id, spec_bytes } => {
            let head = u32_bytes(0) + text_bytes(workload_id);
            starts_with_both(input, head, blob_bytes(spec_bytes));
            starts_with_both(input, u32_bytes(0), text_bytes(workload_id));
        },
        Command::UpdateStatus { workload_id, status } => {
            let head = u32_bytes(1) + text_bytes(workload_id);
            starts_with_both(input, head, text_bytes(status));
            starts_with_both(input, u32_bytes(1), text_bytes(workload_id));
        },
        Command::RemoveWorkload { workload_id } => {
            starts_with_both(input, u32_bytes(2), text_bytes(workload_id));
        },
    }
}

/// An input encodes at most one command.
proof fn command_unique(input: Seq<u8>, a: Command, b: Command)
    requires
        starts_with(input, command_bytes(a)),
        starts_with(input, command_bytes(b)),
        input.len() <= u64::MAX,
    ensures
        a == b,
{
    command_parts(input, a);
    command_parts(input, b);
    let ta: u32 = match a {
        Command::SubmitWorkload { .. } => 0,
        Command::UpdateStatus { .. } => 1,
        Command::RemoveWorkload { .. } => 2,
    };
    let tb: u32 = match b {
        Command::SubmitWorkload { .. } => 0,
        Command::UpdateStatus { .. } => 1,
        Command::RemoveWorkload { .. } => 2,
    };
    u32_unique(input, ta, tb);
    let rest = input.skip(4);
    match (a, b) {
        (
            Command::SubmitWorkload { workload_id: x, spec_bytes: p },
            Command::SubmitWorkload { workload_id: y, spec_bytes: q },
        ) => {
            text_len(x);
            text_len(y);
            text_unique(rest, x, y);
            blob_len(p);
            blob_len(q);
            blob_unique(rest.skip(text_bytes(x).len() as int), p, q);
        },
        (
            Command::UpdateStatus { workload_id: x, status: p },
            Command::UpdateStatus { workload_id: y, status: q },
        ) => {
            text_len(x);
            text_len(y);
            text_unique(rest, x, y);
            text_len(p);
            text_len(q);
            text_unique(rest.skip(text_bytes(x).len() as int), p, q);
        },
        (
            Command::RemoveWorkload { workload_id: x },
            Command::RemoveWorkload { workload_id: y },
        ) => {
            text_len(x);
            text_len(y);
            text_unique(rest, x, y);
        },
        _ => {},
    }
}

proof fn command_in_is(input: Seq<u8>, c: Command)
    requires
        starts_with(input, command_bytes(c)),
        input.len() <= u64::MAX,
    ensures
        command_in(input) == Some(c),
{
    let d = choose|d: Command| starts_with(input, command_bytes(d));
    assert(starts_with(input, command_bytes(d)));
    command_unique(input, c, d);
}

/// Decoding gives back the command that was encoded.
pub proof fn command_round_trip(c: Command)
    requires
        command_bytes(c).len() <= u64::MAX,
    ensures
        command_in(command_bytes(c)) == Some(c),
{
    let b = command_bytes(c);
    assert(b.take(b.len() as int) =~= b);
    command_in_is(b, c);
}

impl ClusterCommand {
    /// Encode the command for replication.
    pub fn encode(&self) -> (out: Vec<u8>)
        ensures
            out@ == command_bytes(self@),
    {
        let mut out: Vec<u8> = Vec::new();
        match self {
            ClusterCommand::SubmitWorkload { workload_id, spec } => {
                put_u32(&mut out, 0);
                put_text(&mut out, workload_id);
                put_blob(&mut out, spec);
            },
            ClusterCommand::UpdateStatus { workload_id, status } => {
                put_u32(&mut out, 1);
                put_text(&mut out, workload_id);
                put_text(&mut out, status);
            },
            ClusterCommand::RemoveWorkload { workload_id } => {
                put_u32(&mut out, 2);
                put_text(&mut out, workload_id);
            },
        }
        assert(out@ =~= command_bytes(self@));
        out
    }

    /// Decode a replicated command.
    pub fn decode(input: &Vec<u8>) -> (r: Result<Self, String>)
        ensures
            match r {
                Ok(c) => command_in(input@) == Some(c@),
                Err(_) => command_in(input@) is None,
            },
    {
        let total: usize = input.len();
        let ghost bytes = input@;
        proof {
            vstd::bytes::lemma_auto_spec_u32_to_from_le_bytes();
            if command_in(bytes) is Some {
                let c = choose|c: Command| starts_with(bytes, command_bytes(c));
                command_parts(bytes, c);
            }
        }
        let mut reader = Reader::new(input.as_slice());
        let tag: u32 = match reader.get_u32() {
            Ok(tag) => tag,
            Err(e) => return Err(e),
        };
        proof {
            assert(u32_bytes(tag).len() == 4);
            if command_in(bytes) is Some {
                let c = choose|c: Command| starts_with(bytes, command_bytes(c));
                let t: u32 = match c {
                    Command::SubmitWorkload { .. } => 0,
                    Command::UpdateStatus { .. } => 1,
                    Command::RemoveWorkload { .. } => 2,
                };
                u32_unique(bytes, tag, t);
            }
        }
        if tag > 2 {
            let mut e = owned("invalid value: integer `");
            push_decimal(&mut e, tag as u64);
            e.append("`, expected variant index 0 <= i < 3");
            return Err(e);
        }
        let workload_id = match reader.get_text() {
            Ok(id) => id,
            Err(e) => return Err(e),
        };
        let ghost id = workload_id@;
        proof {
            text_len(id);
            if command_in(bytes) is Some {
                let c = choose|c: Command| starts_with(bytes, command_bytes(c));
                let other = match c {
                    Command::SubmitWorkload { workload_id, .. } => workload_id,
                    Command::UpdateStatus { workload_id, .. } => workload_id,
                    Command::RemoveWorkload { workload_id } => workload_id,
                };
                text_len(other);
                text_unique(bytes.skip(4), id, other);
            }
        }
        let command = if tag == 0 {
            match reader.get_blob() {
                Ok(spec) => ClusterCommand::SubmitWorkload { workload_id, spec },
                Err(e) => return Err(e),
            }
        } else if tag == 1 {
            match reader.get_text() {
                Ok(status) => ClusterCommand::UpdateStatus { workload_id, status },
                Err(e) => return Err(e),
            }
        } else {
            ClusterCommand::RemoveWorkload { workload_id }
        };
        proof {
            command_parts(bytes, command@);
            command_in_is(bytes, command@);
        }
        Ok(command)
    }
}

// ---------------------------------------------------------------------------
// The workload store
// ---------------------------------------------------------------------------

/// A tracked workload.
#[derive(Debug)]
pub struct Workload {
    /// Serialized workload specification.
    pub spec: Vec<u8>,
    /// Current status.
    pub status: String,
}

/// The mathematical state of the workload store.
#[verifier::ext_equal]
pub struct Store {
    /// Workload ID to serialized specification and status.
    pub workloads: Map<Seq<char>, (Seq<u8>, Seq<char>)>,
    /// The index of the last applied entry.
    pub last_applied: u64,
}

impl Store {
    /// What a command does: submitting sets a workload to pending, an update
    /// changes the status of a known workload, removing forgets it.
    pub open spec fn with_command(self, c: Command, index: u64) -> Store {
        Store {
            workloads: match c {
                Command::SubmitWorkload { workload_id, spec_bytes } => self.workloads.insert(
                    workload_id,
                    (spec_bytes, "pending"@),
                ),
                Command::UpdateStatus { workload_id, status } => if self.workloads.contains_key(
                    workload_id,
                ) {
                    self.workloads.insert(workload_id, (self.workloads[workload_id].0, status))
                } else {
                    self.workloads
                },
                Command::RemoveWorkload { workload_id } => self.workloads.remove(workload_id),
            },
            last_applied: index,
        }
    }

    /// The answer to a command.
    pub open spec fn answer(c: Command) -> Seq<char> {
        match c {
            Command::SubmitWorkload { workload_id, .. } => "workload "@ + workload_id
                + " submitted"@,
            Command::UpdateStatus { workload_id, .. } => "workload "@ + workload_id + " updated"@,
            Command::RemoveWorkload { workload_id } => "workload "@ + workload_id + " removed"@,
        }
    }
}

/// A key-value store of workloads: the state machine of the control plane.
#[derive(Debug)]
pub struct ClusterStateMachine {
    workloads: TextMap<Workload>,
    last_applied_index: u64,
}

impl View for ClusterStateMachine {
    type V = Store;

    closed spec fn view(&self) -> Store {
        Store {
            workloads: self.workloads@.map_values(|w: Workload| (w.spec@, w.status@)),
            last_applied: self.last_applied_index,
        }
    }
}

/// The JSON that `serde_json` writes for a map of workloads.
pub uninterp spec fn workloads_json(workloads: Seq<(Seq<char>, Seq<u8>, Seq<char>)>) -> Seq<u8>;

/// The views of a list of workloads.
pub open spec fn workload_views(list: Seq<(String, (Vec<u8>, String))>) -> Seq<
    (Seq<char>, Seq<u8>, Seq<char>),
> {
    Seq::new(list.len(), |i: int| (list[i].0@, list[i].1.0@, list[i].1.1@))
}

/// `serde_json` on a map, written entry by entry with `Serializer::collect_map`:
/// the bytes depend on the entries and their order alone.
#[verifier::external_body]
fn write_json(list: &Vec<(String, (Vec<u8>, String))>) -> (out: Vec<u8>)
    ensures
        out@ == workloads_json(workload_views(list@)),
{
    let mut out: Vec<u8> = Vec::new();
    let mut json = serde_json::Serializer::new(&mut out);
    match serde::Serializer::collect_map(&mut json, list.iter().map(|e| (&e.0, &e.1))) {
        Ok(()) => out,
        Err(_) => Vec::new(),
    }
}

impl ClusterStateMachine {
    /// The workload IDs in the order of their submission.
    pub closed spec fn order(&self) -> Seq<Seq<char>> {
        self.workloads.order()
    }

    /// Create a new, empty store.
    pub fn new() -> (m: Self)
        ensures
            m@ == (Store { workloads: Map::empty(), last_applied: 0 }),
            m.order() == Seq::<Seq<char>>::empty(),
    {
        let m = ClusterStateMachine { workloads: TextMap::new(), last_applied_index: 0 };
        assert(m@.workloads =~= Map::empty());
        m
    }

    /// Return the number of tracked workloads.
    pub fn workload_count(&self) -> (n: usize)
        ensures
            n == self@.workloads.dom().len(),
    {
        assert(self@.workloads.dom() =~= self.workloads@.dom());
        self.workloads.len()
    }

    /// Check if a workload exists.
    pub fn has_workload(&self, id: &str) -> (b: bool)
        ensures
            b == self@.workloads.contains_key(id@),
    {
        self.workloads.contains_key(id)
    }

    /// Get the status of a workload.
    pub fn workload_status(&self, id: &str) -> (r: Option<&str>)
        ensures
            match r {
                Some(s) => self@.workloads.contains_key(id@) && self@.workloads[id@].1 == s@,
                None => !self@.workloads.contains_key(id@),
            },
    {
        match self.workloads.get(id) {
            Some(w) => Some(w.status.as_str()),
            None => None,
        }
    }

    /// Apply a decoded command.
    fn apply_command(&mut self, command: ClusterCommand, index: u64) -> (answer: String)
        ensures
            final(self)@ == old(self)@.with_command(command@, index),
            answer@ == Store::answer(command@),
    {
        self.last_applied_index = index;
        let mut answer = owned("workload ");
        match command {
            ClusterCommand::SubmitWorkload { workload_id, spec } => {
                answer.append(workload_id.as_str());
                answer.append(" submitted");
                self.workloads.insert(
                    workload_id,
                    Workload { spec, status: owned("pending") },
                );
            },
            ClusterCommand::UpdateStatus { workload_id, status } => {
                answer.append(workload_id.as_str());
                answer.append(" updated");
                let known: Option<Vec<u8>> = match self.workloads.get(workload_id.as_str()) {
                    Some(w) => {
                        let spec: Vec<u8> = w.spec.clone();
                        assert(spec@ =~= w.spec@);
                        Some(spec)
                    },
                    None => None,
                };
                match known {
                    Some(spec) => {
                        self.workloads.insert(workload_id, Workload { spec, status });
                    },
                    None => {},
                }
            },
            ClusterCommand::RemoveWorkload { workload_id } => {
                answer.append(workload_id.as_str());
                answer.append(" removed");
                self.workloads.remove(workload_id.as_str());
            },
        }
        assert(self@.workloads =~= old(self)@.with_command(command@, index).workloads);
        answer
    }
}

impl StateMachine for ClusterStateMachine {
    type State = Store;

    open spec fn state(&self) -> Store {
        self@
    }

    /// An entry at or below the last applied index is skipped; a later one must
    /// hold a command.
    open spec fn accepts(s: Store, entry: Entry) -> bool {
        entry.index <= s.last_applied || command_in(entry.command) is Some
    }

    open spec fn applied(s: Store, entry: Entry) -> Store {
        if entry.index <= s.last_applied {
            s
        } else {
            s.with_command(command_in(entry.command)->0, entry.index)
        }
    }

    open spec fn response(s: Store, entry: Entry) -> Seq<u8> {
        if entry.index <= s.last_applied {
            Seq::empty()
        } else {
            encode_utf8(Store::answer(command_in(entry.command)->0))
        }
    }

    proof fn idempotent(s: Store, entry: Entry) {
    }

    fn apply(&mut self, entry: &LogEntry) -> (r: Result<Vec<u8>, RaftError>)
        ensures
            r matches Err(e) ==> e matches RaftError::Internal(s) && exists|detail: Seq<char>|
                s@ == "failed to deserialize cluster command: "@ + detail,
    {
        if entry.index <= self.last_applied_index {
            return Ok(Vec::new());
        }
        match ClusterCommand::decode(&entry.command) {
            Ok(command) => {
                let answer = self.apply_command(command, entry.index);
                Ok(answer.as_str().as_bytes_vec())
            },
            Err(detail) => {
                let mut s = owned("failed to deserialize cluster command: ");
                s.append(detail.as_str());
                assert(s@ == "failed to deserialize cluster command: "@ + detail@);
                Err(RaftError::Internal(s))
            },
        }
    }

    fn snapshot(&self) -> (out: Vec<u8>)
        ensures
            out@ == workloads_json(
                Seq::new(
                    self.order().len(),
                    |i: int|
                        (
                            self.order()[i],
                            self@.workloads[self.order()[i]].0,
                            self@.workloads[self.order()[i]].1,
                        ),
                ),
            ),
            self.order().no_duplicates(),
            forall|k: Seq<char>| #[trigger]
                self@.workloads.contains_key(k) <==> self.order().contains(k),
    {
        let mut list: Vec<(String, (Vec<u8>, String))> = Vec::new();
        let n: usize = self.workloads.len();
        assert forall|k: Seq<char>| #[trigger]
            self@.workloads.contains_key(k) <==> self.order().contains(k) by {
            assert(self@.workloads.contains_key(k) == self.workloads@.contains_key(k));
        }
        let mut i: usize = 0;
        while i < n
            invariant
                i <= n,
                n == self.order().len(),
                list.len() == i,
                forall|k: int|
                    #![trigger list[k]]
                    0 <= k < i ==> {
                        let id = self.order()[k];
                        &&& list[k].0@ == id
                        &&& list[k].1.0@ == self@.workloads[id].0
                        &&& list[k].1.1@ == self@.workloads[id].1
                    },
            decreases n - i,
        {
            let (id, w) = self.workloads.entry(i);
            let spec: Vec<u8> = w.spec.clone();
            assert(spec@ =~= w.spec@);
            list.push((id.clone(), (spec, w.status.clone())));
            i += 1;
        }
        assert(workload_views(list@) =~= Seq::new(
            self.order().len(),
            |i: int|
                (
                    self.order()[i],
                    self@.workloads[self.order()[i]].0,
                    self@.workloads[self.order()[i]].1,
                ),
        ));
        write_json(&list)
    }
}

/// Determinism: two machines in the same state that apply the same entries reach
/// the same state and give the same answers.
pub proof fn same_entries_same_state<M: StateMachine>(a: M, b: M, entries: Seq<Entry>, entry: Entry)
    requires
        a.state() == b.state(),
    ensures
        accepted_count::<M>(a.state(), entries) == accepted_count::<M>(b.state(), entries),
        state_after::<M>(a.state(), entries) == state_after::<M>(b.state(), entries),
        M::response(state_after::<M>(a.state(), entries), entry) == M::response(
            state_after::<M>(b.state(), entries),
            entry,
        ),
{
}

/// The entry that carries a command.
pub open spec fn carries(entry: Entry, c: Command) -> bool {
    entry.command == command_bytes(c) && command_bytes(c).len() <= u64::MAX
}

/// Submitting a workload stores its specification under its ID, pending, and leaves every
/// other workload as it was.
pub proof fn submission_stores_the_workload(
    s: Store,
    entry: Entry,
    id: Seq<char>,
    spec_bytes: Seq<u8>,
    other: Seq<char>,
)
    requires
        carries(entry, Command::SubmitWorkload { workload_id: id, spec_bytes }),
        entry.index > s.last_applied,
        other != id,
    ensures
        ({
            let r = ClusterStateMachine::applied(s, entry);
            &&& ClusterStateMachine::accepts(s, entry)
            &&& r.workloads.contains_key(id)
            &&& r.workloads[id].0 == spec_bytes
            &&& r.workloads[id].1 == "pending"@
            &&& r.workloads.contains_key(other) == s.workloads.contains_key(other)
            &&& s.workloads.contains_key(other) ==> r.workloads[other] == s.workloads[other]
            &&& r.last_applied == entry.index
        }),
{
    command_round_trip(Command::SubmitWorkload { workload_id: id, spec_bytes });
}

/// Updating a status changes the status of its own workload, if that is known, and
/// nothing else in the store but the index of the last applied entry.
pub proof fn update_changes_one_status(
    s: Store,
    entry: Entry,
    id: Seq<char>,
    status: Seq<char>,
    any: Seq<char>,
)
    requires
        carries(entry, Command::UpdateStatus { workload_id: id, status }),
        entry.index > s.last_applied,
    ensures
        ({
            let r = ClusterStateMachine::applied(s, entry);
            &&& ClusterStateMachine::accepts(s, entry)
            &&& r.workloads.contains_key(any) == s.workloads.contains_key(any)
            &&& s.workloads.contains_key(any) ==> {
                &&& r.workloads[any].0 == s.workloads[any].0
                &&& r.workloads[any].1 == (if any == id {
                    status
                } else {
                    s.workloads[any].1
                })
            }
            &&& r.last_applied == entry.index
        }),
{
    command_round_trip(Command::UpdateStatus { workload_id: id, status });
}

/// Removing a workload forgets it and leaves every other as it was.
pub proof fn removal_forgets_one_workload(
    s: Store,
    entry: Entry,
    id: Seq<char>,
    other: Seq<char>,
)
    requires
        carries(entry, Command::RemoveWorkload { workload_id: id }),
        entry.index > s.last_applied,
        other != id,
    ensures
        ({
            let r = ClusterStateMachine::applied(s, entry);
            &&& ClusterStateMachine::accepts(s, entry)
            &&& !r.workloads.contains_key(id)
            &&& r.workloads.contains_key(other) == s.workloads.contains_key(other)
            &&& s.workloads.contains_key(other) ==> r.workloads[other] == s.workloads[other]
            &&& r.last_applied == entry.index
        }),
{
    command_round_trip(Command::RemoveWorkload { workload_id: id });
}

/// An entry that is not above the last applied one is passed over, with an empty answer;
/// one above it that holds no command is refused.
pub proof fn old_entries_are_passed_over(s: Store, entry: Entry)
    ensures
        entry.index <= s.last_applied ==> ClusterStateMachine::accepts(s, entry)
            && ClusterStateMachine::applied(s, entry) == s && ClusterStateMachine::response(
            s,
            entry,
        ).len() == 0,
        entry.index > s.last_applied && (forall|c: Command|
            !starts_with(entry.command, #[trigger] command_bytes(c)))
            ==> !ClusterStateMachine::accepts(s, entry),
{
}

/// The answer to a command names the workload and what was done to it.
pub proof fn answers_name_the_workload(s: Store, entry: Entry, c: Command)
    requires
        carries(entry, c),
        entry.index > s.last_applied,
    ensures
        ClusterStateMachine::response(s, entry) == encode_utf8(
            match c {
                Command::SubmitWorkload { workload_id, .. } => "workload "@ + workload_id
                    + " submitted"@,
                Command::UpdateStatus { workload_id, .. } => "workload "@ + workload_id
                    + " updated"@,
                Command::RemoveWorkload { workload_id } => "workload "@ + workload_id
                    + " removed"@,
            },
        ),
{
    command_round_trip(c);
}

/// A workload's specification outlasts the updates that follow its submission, for this
/// or other workloads; its status is that of the last update for it, or pending.
pub proof fn specifications_outlast_updates(
    s: Store,
    submitted: Entry,
    id: Seq<char>,
    spec_bytes: Seq<u8>,
    entries: Seq<Entry>,
    updates: Seq<(Seq<char>, Seq<char>)>,
)
    requires
        carries(submitted, Command::SubmitWorkload { workload_id: id, spec_bytes }),
        submitted.index > s.last_applied,
        entries.len() == updates.len(),
        forall|k: int|
            0 <= k < entries.len() ==> carries(
                #[trigger] entries[k],
                Command::UpdateStatus { workload_id: updates[k].0, status: updates[k].1 },
            ),
        forall|k: int|
            0 <= k < entries.len() ==> (#[trigger] entries[k]).index > submitted.index,
        forall|j: int, k: int|
            0 <= j < k < entries.len() ==> (#[trigger] entries[j]).index < (
            #[trigger] entries[k]).index,
    ensures
        ({
            let r = state_after::<ClusterStateMachine>(
                ClusterStateMachine::applied(s, submitted),
                entries,
            );
            &&& r.workloads.contains_key(id)
            &&& r.workloads[id].0 == spec_bytes
            &&& (forall|k: int| 0 <= k < updates.len() ==> (#[trigger] updates[k]).0 != id)
                ==> r.workloads[id].1 == "pending"@
            &&& forall|k: int|
                0 <= k < updates.len() && updates[k].0 == id && (forall|j: int|
                    k < j < updates.len() ==> (#[trigger] updates[j]).0 != id)
                    ==> r.workloads[id].1 == (#[trigger] updates[k]).1
            &&& r.workloads.dom() == s.workloads.dom().insert(id)
            &&& r.last_applied == (if entries.len() == 0 {
                submitted.index
            } else {
                entries.last().index
            })
        }),
{
    let start = ClusterStateMachine::applied(s, submitted);
    submission_stores_the_workload(s, submitted, id, spec_bytes, id.push('x'));
    assert(start.workloads.dom() =~= s.workloads.dom().insert(id)) by {
        assert forall|k: Seq<char>| k != id implies #[trigger] start.workloads.contains_key(k)
            == s.workloads.contains_key(k) by {
            submission_stores_the_workload(s, submitted, id, spec_bytes, k);
        }
    }
    updates_keep(start, entries, updates, id);
}

/// Updates with rising indices keep every specification and set the status that the last
/// of them for a workload gives.
proof fn updates_keep(
    s: Store,
    entries: Seq<Entry>,
    updates: Seq<(Seq<char>, Seq<char>)>,
    id: Seq<char>,
)
    requires
        entries.len() == updates.len(),
        forall|k: int|
            0 <= k < entries.len() ==> carries(
                #[trigger] entries[k],
                Command::UpdateStatus { workload_id: updates[k].0, status: updates[k].1 },
            ),
        forall|k: int|
            0 <= k < entries.len() ==> (#[trigger] entries[k]).index > s.last_applied,
        forall|j: int, k: int|
            0 <= j < k < entries.len() ==> (#[trigger] entries[j]).index < (
            #[trigger] entries[k]).index,
        s.workloads.contains_key(id),
    ensures
        ({
            let r = state_after::<ClusterStateMachine>(s, entries);
            &&& r.workloads.dom() == s.workloads.dom()
            &&& r.workloads[id].0 == s.workloads[id].0
            &&& (forall|k: int| 0 <= k < updates.len() ==> (#[trigger] updates[k]).0 != id)
                ==> r.workloads[id].1 == s.workloads[id].1
            &&& forall|k: int|
                0 <= k < updates.len() && updates[k].0 == id && (forall|j: int|
                    k < j < updates.len() ==> (#[trigger] updates[j]).0 != id)
                    ==> r.workloads[id].1 == (#[trigger] updates[k]).1
            &&& r.last_applied == (if entries.len() == 0 {
                s.last_applied
            } else {
                entries.last().index
            })
        }),
    decreases entries.len(),
{
    if entries.len() > 0 {
        let first = entries[0];
        let t = ClusterStateMachine::applied(s, first);
        assert(carries(
            entries[0],
            Command::UpdateStatus { workload_id: updates[0].0, status: updates[0].1 },
        ));
        assert forall|k: Seq<char>| true implies #[trigger] t.workloads.contains_key(k)
            == s.workloads.contains_key(k) by {
            update_changes_one_status(s, first, updates[0].0, updates[0].1, k);
        }
        update_changes_one_status(s, first, updates[0].0, updates[0].1, id);
        assert(t.workloads.dom() =~= s.workloads.dom());
        let rest = entries.drop_first();
        let later = updates.drop_first();
        assert forall|k: int| 0 <= k < rest.len() implies carries(
            #[trigger] rest[k],
            Command::UpdateStatus { workload_id: later[k].0, status: later[k].1 },
        ) && rest[k].index > t.last_applied by {
            assert(rest[k] == entries[k + 1]);
            assert(entries[0].index < entries[k + 1].index);
        }
        assert forall|j: int, k: int| 0 <= j < k < rest.len() implies (
        #[trigger] rest[j]).index < (#[trigger] rest[k]).index by {
            assert(rest[j] == entries[j + 1] && rest[k] == entries[k + 1]);
        }
        updates_keep(t, rest, later, id);
        let r = state_after::<ClusterStateMachine>(s, entries);
        assert(r == state_after::<ClusterStateMachine>(t, rest));
        assert forall|k: int|
            0 <= k < updates.len() && updates[k].0 == id && (forall|j: int|
                k < j < updates.len() ==> (#[trigger] updates[j]).0 != id) implies r.workloads[id].1
            == (#[trigger] updates[k]).1 by {
            if k == 0 {
                assert forall|j: int| 0 <= j < later.len() implies (#[trigger] later[j]).0
                    != id by {
                    assert(later[j] == updates[j + 1]);
                }
            } else {
                assert(later[k - 1] == updates[k]);
                assert forall|j: int| k - 1 < j < later.len() implies (#[trigger] later[j]).0
                    != id by {
                    assert(later[j] == updates[j + 1]);
                }
            }
        }
        if forall|k: int| 0 <= k < updates.len() ==> (#[trigger] updates[k]).0 != id {
            assert(updates[0].0 != id);
            assert forall|k: int| 0 <= k < later.len() implies (#[trigger] later[k]).0 != id by {
                assert(later[k] == updates[k + 1]);
            }
        }
    }
}

/// A command is replicated as the number of its kind and then its texts and bytes in order,
/// each after its length.
pub proof fn commands_are_laid_out_in_order(id: Seq<char>, spec_bytes: Seq<u8>, status: Seq<char>)
    ensures
        ({
            let name = u64_bytes(encode_utf8(id).len() as u64) + encode_utf8(id);
            let words = u64_bytes(encode_utf8(status).len() as u64) + encode_utf8(status);
            let data = u64_bytes(spec_bytes.len() as u64) + spec_bytes;
            &&& command_bytes(Command::SubmitWorkload { workload_id: id, spec_bytes }) == u32_bytes(
                0,
            ) + name + data
            &&& command_bytes(Command::UpdateStatus { workload_id: id, status }) == u32_bytes(1)
                + name + words
            &&& command_bytes(Command::RemoveWorkload { workload_id: id }) == u32_bytes(2) + name
        }),
{
}

// ---------------------------------------------------------------------------
// What applying an entry does
// ---------------------------------------------------------------------------

/// After an entry that submits a workload was applied, the store holds it under its ID with
/// its specification, pending; it can be asked for; the other workloads are as they were.
pub proof fn applying_a_submission_stores_it(
    entry: &LogEntry,
    id: &str,
    spec_bytes: Seq<u8>,
    other: Seq<char>,
)
    requires
        carries(entry@, Command::SubmitWorkload { workload_id: id@, spec_bytes }),
        other != id@,
    ensures
        forall|m: &mut ClusterStateMachine, r: Result<Vec<u8>, RaftError>| #[trigger]
            call_ensures(ClusterStateMachine::apply, (m, entry), r) && entry.index > m@.last_applied
                ==> {
                &&& r is Ok
                &&& final(m)@.workloads.contains_key(id@)
                &&& final(m)@.workloads[id@].0 == spec_bytes
                &&& final(m)@.workloads[id@].1 == "pending"@
                &&& final(m)@.last_applied == entry.index
                &&& final(m)@.workloads.contains_key(other) == m@.workloads.contains_key(other)
                &&& m@.workloads.contains_key(other) ==> final(m)@.workloads[other]
                    == m@.workloads[other]
            },
{
    assert forall|m: &mut ClusterStateMachine, r: Result<Vec<u8>, RaftError>| #[trigger]
        call_ensures(ClusterStateMachine::apply, (m, entry), r) && entry.index
            > m@.last_applied implies {
        &&& r is Ok
        &&& final(m)@.workloads.contains_key(id@)
        &&& final(m)@.workloads[id@].0 == spec_bytes
        &&& final(m)@.workloads[id@].1 == "pending"@
        &&& final(m)@.last_applied == entry.index
        &&& final(m)@.workloads.contains_key(other) == m@.workloads.contains_key(other)
        &&& m@.workloads.contains_key(other) ==> final(m)@.workloads[other] == m@.workloads[other]
    } by {
        submission_stores_the_workload(m@, entry@, id@, spec_bytes, other);
    }
}

/// After an entry that updates a status was applied, every workload that was there is there,
/// with the specification that it had; only the status of the one named has changed.
pub proof fn applying_an_update_keeps_specifications(
    entry: &LogEntry,
    id: Seq<char>,
    status: Seq<char>,
    any: Seq<char>,
)
    requires
        carries(entry@, Command::UpdateStatus { workload_id: id, status }),
    ensures
        forall|m: &mut ClusterStateMachine, r: Result<Vec<u8>, RaftError>| #[trigger]
            call_ensures(ClusterStateMachine::apply, (m, entry), r) && entry.index > m@.last_applied
                ==> {
                &&& r is Ok
                &&& final(m)@.workloads.contains_key(any) == m@.workloads.contains_key(any)
                &&& m@.workloads.contains_key(any) ==> final(m)@.workloads[any].0
                    == m@.workloads[any].0
                &&& m@.workloads.contains_key(any) && any != id ==> final(m)@.workloads[any].1
                    == m@.workloads[any].1
                &&& m@.workloads.contains_key(id) ==> final(m)@.workloads[id].1 == status
            },
{
    assert forall|m: &mut ClusterStateMachine, r: Result<Vec<u8>, RaftError>| #[trigger]
        call_ensures(ClusterStateMachine::apply, (m, entry), r) && entry.index
            > m@.last_applied implies {
        &&& r is Ok
        &&& final(m)@.workloads.contains_key(any) == m@.workloads.contains_key(any)
        &&& m@.workloads.contains_key(any) ==> final(m)@.workloads[any].0 == m@.workloads[any].0
        &&& m@.workloads.contains_key(any) && any != id ==> final(m)@.workloads[any].1
            == m@.workloads[any].1
        &&& m@.workloads.contains_key(id) ==> final(m)@.workloads[id].1 == status
    } by {
        update_changes_one_status(m@, entry@, id, status, any);
        update_changes_one_status(m@, entry@, id, status, id);
    }
}

/// After an entry that removes a workload was applied, it is gone and the others are as they
/// were.
pub proof fn applying_a_removal_forgets_it(entry: &LogEntry, id: Seq<char>, other: Seq<char>)
    requires
        carries(entry@, Command::RemoveWorkload { workload_id: id }),
        other != id,
    ensures
        forall|m: &mut ClusterStateMachine, r: Result<Vec<u8>, RaftError>| #[trigger]
            call_ensures(ClusterStateMachine::apply, (m, entry), r) && entry.index > m@.last_applied
                ==> {
                &&& r is Ok
                &&& !final(m)@.workloads.contains_key(id)
                &&& final(m)@.workloads.contains_key(other) == m@.workloads.contains_key(other)
                &&& m@.workloads.contains_key(other) ==> final(m)@.workloads[other]
                    == m@.workloads[other]
            },
{
    assert forall|m: &mut ClusterStateMachine, r: Result<Vec<u8>, RaftError>| #[trigger]
        call_ensures(ClusterStateMachine::apply, (m, entry), r) && entry.index
            > m@.last_applied implies {
        &&& r is Ok
        &&& !final(m)@.workloads.contains_key(id)
        &&& final(m)@.workloads.contains_key(other) == m@.workloads.contains_key(other)
        &&& m@.workloads.contains_key(other) ==> final(m)@.workloads[other] == m@.workloads[other]
    } by {
        removal_forgets_one_workload(m@, entry@, id, other);
    }
}

/// What the store tells of a workload is what it holds of it.
pub proof fn questions_are_answered_from_the_store(
    m: &ClusterStateMachine,
    id: &str,
    known: bool,
    status: Option<&str>,
)
    requires
        call_ensures(ClusterStateMachine::has_workload, (m, id), known),
        call_ensures(ClusterStateMachine::workload_status, (m, id), status),
    ensures
        known <==> m@.workloads.contains_key(id@),
        status is Some <==> known,
        status matches Some(s) ==> s@ == m@.workloads[id@].1,
{
}

/// A command that was encoded and then decoded is the same command.
pub proof fn decoding_undoes_encoding(
    c: ClusterCommand,
    bytes: &Vec<u8>,
    back: Result<ClusterCommand, String>,
)
    requires
        call_ensures(ClusterCommand::encode, (&c,), *bytes),
        call_ensures(ClusterCommand::decode, (bytes,), back),
        bytes@.len() <= u64::MAX,
    ensures
        back is Ok,
        back->Ok_0@ == c@,
{
    command_round_trip(c@);
}

} // verus!
