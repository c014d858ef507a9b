//! Raft log: the replicated sequence of entries, its consistency check against
//! a leader's log, and the commit and apply positions.
//!
//! The log in memory mirrors a write-ahead log on disk. Every change is first
//! planned as a list of storage operations ([`LogOp`]), which the caller carries
//! out; the log is then told how many of them reached the disk.

use vstd::prelude::*;

use crate::raft::error::RaftError;
use crate::raft::message::{entry_views, Entry, LogEntry};
use crate::storage::error::StorageError;
use crate::storage::wal::{record_views, Record, WalEntry};
use crate::text::owned;

verus! {

// ---------------------------------------------------------------------------
// Mathematical model
// ---------------------------------------------------------------------------

/// Index of the last entry, or 0 if the log is empty.
pub open spec fn last_index(log: Seq<Entry>) -> u64 {
    if log.len() == 0 {
        0
    } else {
        log.last().index
    }
}

/// Term of the last entry, or 0 if the log is empty.
pub open spec fn last_term(log: Seq<Entry>) -> u64 {
    if log.len() == 0 {
        0
    } else {
        log.last().term
    }
}

/// The entry at a log index. Positions count up from the first entry's index;
/// index 0 is never occupied.
pub open spec fn entry_at(log: Seq<Entry>, index: u64) -> Option<Entry> {
    if index == 0 || log.len() == 0 || index < log[0].index || index - log[0].index >= log.len() {
        None
    } else {
        Some(log[index - log[0].index])
    }
}

/// The term at a log index; index 0 stands for the empty prefix, of term 0.
pub open spec fn term_at(log: Seq<Entry>, index: u64) -> Option<u64> {
    if index == 0 {
        Some(0)
    } else {
        match entry_at(log, index) {
            Some(e) => Some(e.term),
            None => None,
        }
    }
}

/// The entries with positions in `[from, to]`, clamped to those present.
pub open spec fn range(log: Seq<Entry>, from: int, to: int) -> Seq<Entry> {
    if log.len() == 0 {
        Seq::empty()
    } else {
        let first = log[0].index as int;
        let lo = if from < first { 0 } else { from - first };
        let hi = if to - first + 1 > log.len() { log.len() as int } else { to - first + 1 };
        if lo < hi {
            log.subrange(lo, hi)
        } else {
            Seq::empty()
        }
    }
}

/// The consistency check on the entry that precedes new ones.
pub open spec fn prev_matches(log: Seq<Entry>, prev_index: u64, prev_term: u64) -> bool {
    prev_index == 0 || term_at(log, prev_index) == Some(prev_term)
}

/// The index of the first of `entries` that is present in the log with another
/// term, where every one before it is present with its own term.
pub open spec fn conflict(log: Seq<Entry>, entries: Seq<Entry>) -> Option<u64>
    decreases entries.len(),
{
    if entries.len() == 0 {
        None
    } else {
        match term_at(log, entries[0].index) {
            None => None,
            Some(t) => if t != entries[0].term {
                Some(entries[0].index)
            } else {
                conflict(log, entries.drop_first())
            },
        }
    }
}

/// The log without the entries at or above an index.
pub open spec fn truncated(log: Seq<Entry>, from_index: u64) -> Seq<Entry> {
    log.filter(|e: Entry| e.index < from_index)
}

/// Those of `entries` that extend a log whose last index is `last`: each raises
/// the last index.
pub open spec fn fresh(last: u64, entries: Seq<Entry>) -> Seq<Entry>
    decreases entries.len(),
{
    if entries.len() == 0 {
        Seq::empty()
    } else if entries[0].index > last {
        seq![entries[0]] + fresh(entries[0].index, entries.drop_first())
    } else {
        fresh(last, entries.drop_first())
    }
}

/// The log once a conflict with `entries` has been cut off.
pub open spec fn repaired(log: Seq<Entry>, entries: Seq<Entry>) -> Seq<Entry> {
    match conflict(log, entries) {
        Some(index) => truncated(log, index),
        None => log,
    }
}

/// A storage operation, as the specification sees it.
#[verifier::ext_equal]
pub enum Op {
    /// Remove every entry at or above the index.
    Truncate(u64),
    /// Append the entry.
    Append(Entry),
}

/// The appends of a sequence of entries.
pub open spec fn append_ops(entries: Seq<Entry>) -> Seq<Op> {
    Seq::new(entries.len(), |i: int| Op::Append(entries[i]))
}

/// The storage operations by which a log takes in a leader's entries.
pub open spec fn merge_ops(log: Seq<Entry>, entries: Seq<Entry>) -> Seq<Op> {
    let cut: Seq<Op> = match conflict(log, entries) {
        Some(index) => seq![Op::Truncate(index)],
        None => Seq::empty(),
    };
    cut + append_ops(fresh(last_index(repaired(log, entries)), entries))
}

/// The log after taking in a leader's entries, when the first `completed` of the
/// storage operations succeeded. The cut is made in memory in any case.
pub open spec fn merged(log: Seq<Entry>, entries: Seq<Entry>, completed: nat) -> Seq<Entry> {
    let base = repaired(log, entries);
    let new = fresh(last_index(base), entries);
    let cuts: int = if conflict(log, entries) is Some { 1 } else { 0 };
    let appended = if completed - cuts > new.len() {
        new.len() as int
    } else if completed < cuts {
        0
    } else {
        completed - cuts
    };
    base + new.take(appended)
}

/// Entries numbered from one without gaps.
pub open spec fn contiguous(log: Seq<Entry>) -> bool {
    forall|i: int| 0 <= i < log.len() ==> (#[trigger] log[i]).index == i + 1
}

/// The entry that a record of the write-ahead log stands for. Records count
/// from zero, entries from one.
pub open spec fn recovered_entry(record: Record) -> Entry {
    Entry { index: (record.index + 1) as u64, term: record.term, command: record.data }
}

/// Mathematical view of a [`RaftLog`].
#[verifier::ext_equal]
pub struct LogState {
    pub entries: Seq<Entry>,
    pub commit: u64,
    pub applied: u64,
}

impl LogState {
    /// Advance the commit index; it never goes back.
    pub open spec fn committed_to(self, index: u64) -> LogState {
        LogState { commit: if index > self.commit { index } else { self.commit }, ..self }
    }

    /// The committed entries that have not been applied yet.
    pub open spec fn unapplied(self) -> Seq<Entry> {
        if self.applied >= self.commit {
            Seq::empty()
        } else {
            range(self.entries, self.applied + 1, self.commit as int)
        }
    }
}

// ---------------------------------------------------------------------------
// Executable log
// ---------------------------------------------------------------------------

/// A storage operation that the log asks for.
#[derive(Debug)]
pub enum LogOp {
    /// Remove every entry at or above the index.
    Truncate(u64),
    /// Append the entry.
    Append(LogEntry),
}

impl View for LogOp {
    type V = Op;

    open spec fn view(&self) -> Op {
        match *self {
            LogOp::Truncate(index) => Op::Truncate(index),
            LogOp::Append(entry) => Op::Append(entry@),
        }
    }
}

/// The views of a sequence of storage operations.
pub open spec fn op_views(ops: Seq<LogOp>) -> Seq<Op> {
    Seq::new(ops.len(), |i: int| ops[i]@)
}

/// How far a list of storage operations got.
#[derive(Debug)]
pub struct StorageReport {
    /// How many operations succeeded, from the front of the list.
    pub completed: usize,
    /// What the next operation failed with, if one did.
    pub error: String,
}

/// The replicated log in memory.
pub struct RaftLog {
    /// The entries, in log order.
    pub entries: Vec<LogEntry>,
    /// The highest index known to be committed.
    pub commit_index: u64,
    /// The highest index applied to the state machine.
    pub last_applied: u64,
}

impl View for RaftLog {
    type V = LogState;

    open spec fn view(&self) -> LogState {
        LogState {
            entries: entry_views(self.entries@),
            commit: self.commit_index,
            applied: self.last_applied,
        }
    }
}

impl RaftLog {
    /// Create a log from what was read from the write-ahead log.
    pub fn new(recovered: Result<Vec<WalEntry>, StorageError>) -> (r: Result<Self, RaftError>)
        requires
            recovered matches Ok(records) ==> forall|i: int|
                0 <= i < records.len() ==> (#[trigger] records[i]).index < u64::MAX,
        ensures
            match recovered {
                Ok(records) => r matches Ok(log) && log@ == (LogState {
                    entries: record_views(records@).map_values(|w: Record| recovered_entry(w)),
                    commit: 0,
                    applied: 0,
                }),
                Err(e) => r matches Err(RaftError::StorageFailure(s)) && s@ == e.text(),
            },
    {
        let records = match recovered {
            Ok(records) => records,
            Err(e) => return Err(RaftError::from(e)),
        };
        let mut entries: Vec<LogEntry> = Vec::new();
        let mut i: usize = 0;
        while i < records.len()
            invariant
                i <= records.len(),
                entries.len() == i,
                forall|k: int|
                    0 <= k < records.len() ==> (#[trigger] records[k]).index < u64::MAX,
                forall|k: int|
                    0 <= k < i ==> (#[trigger] entries[k])@ == recovered_entry(records[k]@),
            decreases records.len() - i,
        {
            let data: Vec<u8> = records[i].data.clone();
            assert(data@ =~= records[i as int].data@);
            entries.push(LogEntry::new(records[i].index + 1, records[i].term, data));
            i += 1;
        }
        assert(entry_views(entries@) =~= record_views(records@).map_values(
            |w: Record| recovered_entry(w),
        ));
        Ok(RaftLog { entries, commit_index: 0, last_applied: 0 })
    }

    /// Return the index of the last entry in the log, or 0 if empty.
    pub fn last_index(&self) -> (index: u64)
        ensures
            index == last_index(self@.entries),
    {
        let n: usize = self.entries.len();
        if n == 0 {
            0
        } else {
            self.entries[n - 1].index
        }
    }

    /// Return the term of the last entry in the log, or 0 if empty.
    pub fn last_term(&self) -> (term: u64)
        ensures
            term == last_term(self@.entries),
    {
        let n: usize = self.entries.len();
        if n == 0 {
            0
        } else {
            self.entries[n - 1].term
        }
    }

    /// Return the term of the entry at `index`, or `None` if out of range.
    pub fn term_at(&self, index: u64) -> (term: Option<u64>)
        ensures
            term == term_at(self@.entries, index),
    {
        if index == 0 {
            return Some(0);
        }
        match self.entry_at(index) {
            Some(e) => Some(e.term),
            None => None,
        }
    }

    /// Return a reference to the entry at `index`, or `None` if out of range.
    pub fn entry_at(&self, index: u64) -> (entry: Option<&LogEntry>)
        ensures
            match entry {
                Some(e) => entry_at(self@.entries, index) == Some(e@),
                None => entry_at(self@.entries, index) is None,
            },
    {
        if index == 0 || self.entries.len() == 0 {
            return None;
        }
        let first: u64 = self.entries[0].index;
        if index < first || index - first >= self.entries.len() as u64 {
            return None;
        }
        Some(&self.entries[(index - first) as usize])
    }

    /// Return entries in the range `[from_index, to_index]` (inclusive), clamped
    /// to the available entries.
    pub fn entries_range(&self, from_index: u64, to_index: u64) -> (out: Vec<LogEntry>)
        ensures
            entry_views(out@) == range(self@.entries, from_index as int, to_index as int),
    {
        let mut out: Vec<LogEntry> = Vec::new();
        if self.entries.len() == 0 {
            assert(entry_views(out@) =~= Seq::empty());
            return out;
        }
        let first: u64 = self.entries[0].index;
        if to_index < first || from_index > to_index {
            assert(entry_views(out@) =~= Seq::empty());
            return out;
        }
        let last_pos: u64 = self.entries.len() as u64 - 1;
        let hi: u64 = if to_index - first > last_pos { last_pos } else { to_index - first };
        let lo: u64 = if from_index < first { 0 } else { from_index - first };
        let ghost want = range(self@.entries, from_index as int, to_index as int);
        if lo > hi {
            assert(entry_views(out@) =~= Seq::empty());
            return out;
        }
        let mut i: u64 = lo;
        while i <= hi
            invariant
                lo <= i <= hi + 1,
                hi <= last_pos,
                last_pos == self.entries.len() - 1,
                out.len() == i - lo,
                want == self@.entries.subrange(lo as int, hi + 1),
                forall|k: int| 0 <= k < out.len() ==> (#[trigger] out[k])@ == want[k],
            decreases hi + 1 - i,
        {
            out.push(self.entries[i as usize].clone());
            i += 1;
        }
        assert(entry_views(out@) =~= want);
        out
    }

    /// Plan a single append: the entry that follows the log, to be stored before
    /// [`RaftLog::append`] takes it in.
    pub fn next_entry(&self, term: u64, command: Vec<u8>) -> (entry: LogEntry)
        requires
            last_index(self@.entries) < u64::MAX,
        ensures
            entry@ == (Entry {
                index: (last_index(self@.entries) + 1) as u64,
                term,
                command: command@,
            }),
    {
        LogEntry::new(self.last_index() + 1, term, command)
    }

    /// Append a single entry, whose index becomes `last_index + 1`, if it was
    /// stored; otherwise leave the log as it is.
    pub fn append(&mut self, term: u64, command: Vec<u8>, report: &StorageReport) -> (r: Result<
        LogEntry,
        RaftError,
    >)
        requires
            last_index(old(self)@.entries) < u64::MAX,
        ensures
            ({
                let entry = Entry {
                    index: (last_index(old(self)@.entries) + 1) as u64,
                    term,
                    command: command@,
                };
                if report.completed >= 1 {
                    &&& r matches Ok(e) && e@ == entry
                    &&& final(self)@ == (LogState {
                        entries: old(self)@.entries.push(entry),
                        ..old(self)@
                    })
                } else {
                    &&& r matches Err(RaftError::StorageFailure(s)) && s@ == report.error@
                    &&& final(self)@ == old(self)@
                }
            }),
    {
        if report.completed == 0 {
            return Err(RaftError::StorageFailure(owned(report.error.as_str())));
        }
        let entry = self.next_entry(term, command);
        let copy = entry.clone();
        self.entries.push(entry);
        assert(self@.entries =~= old(self)@.entries.push(copy@));
        Ok(copy)
    }

    /// The index of the first of `entries` that conflicts with the log.
    fn conflict_index(&self, entries: &Vec<LogEntry>) -> (r: Option<u64>)
        ensures
            r == conflict(self@.entries, entry_views(entries@)),
    {
        let ghost es = entry_views(entries@);
        let mut i: usize = 0;
        assert(es.skip(0) =~= es);
        while i < entries.len()
            invariant
                i <= entries.len(),
                es == entry_views(entries@),
                conflict(self@.entries, es) == conflict(self@.entries, es.skip(i as int)),
            decreases entries.len() - i,
        {
            assert(es.skip(i as int)[0] == es[i as int]);
            assert(es.skip(i as int).drop_first() =~= es.skip(i + 1));
            match self.term_at(entries[i].index) {
                None => return None,
                Some(t) => {
                    if t != entries[i].term {
                        return Some(entries[i].index);
                    }
                },
            }
            i += 1;
        }
        None
    }

    /// Check that the log holds an entry of term `prev_log_term` at
    /// `prev_log_index`.
    fn check_prev(&self, prev_log_index: u64, prev_log_term: u64) -> (r: Result<(), RaftError>)
        ensures
            r is Ok <==> prev_matches(self@.entries, prev_log_index, prev_log_term),
            r matches Err(e) ==> e == (RaftError::LogDivergence {
                index: prev_log_index,
                expected_term: prev_log_term,
                found_term: term_at(self@.entries, prev_log_index),
            }),
    {
        if prev_log_index > 0 {
            let found: Option<u64> = self.term_at(prev_log_index);
            let matching: bool = match found {
                Some(t) => t == prev_log_term,
                None => false,
            };
            if !matching {
                return Err(
                    RaftError::LogDivergence {
                        index: prev_log_index,
                        expected_term: prev_log_term,
                        found_term: found,
                    },
                );
            }
        }
        Ok(())
    }

    /// Plan the storage operations by which the log takes in entries received
    /// from a leader: a truncation at the first conflict, then an append for each
    /// entry not yet present.
    pub fn plan_append_entries(
        &self,
        prev_log_index: u64,
        prev_log_term: u64,
        entries: &Vec<LogEntry>,
    ) -> (r: Result<Vec<LogOp>, RaftError>)
        ensures
            match r {
                Ok(ops) => prev_matches(self@.entries, prev_log_index, prev_log_term) && op_views(
                    ops@,
                ) == merge_ops(self@.entries, entry_views(entries@)),
                Err(e) => !prev_matches(self@.entries, prev_log_index, prev_log_term) && e == (
                RaftError::LogDivergence {
                    index: prev_log_index,
                    expected_term: prev_log_term,
                    found_term: term_at(self@.entries, prev_log_index),
                }),
            },
    {
        match self.check_prev(prev_log_index, prev_log_term) {
            Ok(()) => {},
            Err(e) => return Err(e),
        }
        let ghost es = entry_views(entries@);
        let ghost log = self@.entries;
        let mut ops: Vec<LogOp> = Vec::new();
        let mut last: u64 = self.last_index();
        let cut = self.conflict_index(entries);
        match cut {
            Some(index) => {
                ops.push(LogOp::Truncate(index));
                last = self.last_index_below(index);
            },
            None => {},
        }
        let ghost head = op_views(ops@);
        assert(es.skip(0) =~= es);
        assert(append_ops(Seq::<Entry>::empty()) =~= Seq::empty());
        let mut i: usize = 0;
        let ghost mut done: Seq<Entry> = Seq::empty();
        assert(op_views(ops@) =~= head + append_ops(done));
        assert(fresh(last, es) =~= done + fresh(last, es.skip(0)));
        let ghost base_last = last;
        while i < entries.len()
            invariant
                i <= entries.len(),
                es == entry_views(entries@),
                op_views(ops@) == head + append_ops(done),
                fresh(base_last, es) == done + fresh(last, es.skip(i as int)),
            decreases entries.len() - i,
        {
            let ghost rest = es.skip(i as int);
            let ghost before = ops@;
            assert(rest[0] == es[i as int]);
            assert(rest.drop_first() =~= es.skip(i + 1));
            if entries[i].index > last {
                last = entries[i].index;
                ops.push(LogOp::Append(entries[i].clone()));
                proof {
                    let grown = done.push(es[i as int]);
                    assert(fresh(base_last, es) =~= grown + fresh(last, es.skip(i + 1)));
                    assert(append_ops(grown) =~= append_ops(done).push(
                        Op::Append(es[i as int]),
                    ));
                    assert(op_views(ops@) =~= op_views(before).push(Op::Append(es[i as int])));
                    assert(op_views(ops@) =~= head + append_ops(grown));
                    done = grown;
                }
            }
            i += 1;
        }
        assert(es.skip(i as int) =~= Seq::empty());
        assert(done =~= fresh(base_last, es));
        assert(op_views(ops@) =~= merge_ops(log, es));
        Ok(ops)
    }

    /// Append entries received from a leader, of whose planned storage operations
    /// `report` says how many were carried out.
    ///
    /// 1. The log must contain an entry at `prev_log_index` with term
    ///    `prev_log_term`.
    /// 2. At the first entry present with another term the log is truncated.
    /// 3. The entries not already present are appended.
    pub fn append_entries(
        &mut self,
        prev_log_index: u64,
        prev_log_term: u64,
        entries: &Vec<LogEntry>,
        report: &StorageReport,
    ) -> (r: Result<(), RaftError>)
        ensures
            ({
                let log = old(self)@.entries;
                let es = entry_views(entries@);
                if !prev_matches(log, prev_log_index, prev_log_term) {
                    &&& r == Err::<(), RaftError>(
                        RaftError::LogDivergence {
                            index: prev_log_index,
                            expected_term: prev_log_term,
                            found_term: term_at(log, prev_log_index),
                        },
                    )
                    &&& final(self)@ == old(self)@
                } else {
                    &&& final(self)@ == (LogState {
                        entries: merged(log, es, report.completed as nat),
                        ..old(self)@
                    })
                    &&& r is Ok <==> report.completed >= merge_ops(log, es).len()
                    &&& r matches Err(e) ==> e matches RaftError::StorageFailure(s) && s@
                        == report.error@
                }
            }),
    {
        match self.check_prev(prev_log_index, prev_log_term) {
            Ok(()) => {},
            Err(e) => return Err(e),
        }
        let ghost es = entry_views(entries@);
        let ghost log = self@.entries;
        let mut left: usize = report.completed;
        let cut = self.conflict_index(entries);
        match cut {
            Some(index) => {
                self.truncate_from(index);
                if left == 0 {
                    assert(self@.entries =~= merged(log, es, 0));
                    return Err(RaftError::StorageFailure(owned(report.error.as_str())));
                }
                left = left - 1;
            },
            None => {},
        }
        let ghost base = self@.entries;
        let ghost new = fresh(last_index(base), es);
        let ghost budget = left;
        assert(es.skip(0) =~= es);
        let ghost mut done: Seq<Entry> = Seq::empty();
        assert(base =~= base + done);
        assert(new =~= done + new);
        let mut i: usize = 0;
        while i < entries.len()
            invariant
                i <= entries.len(),
                es == entry_views(entries@),
                self@ == (LogState { entries: base + done, ..old(self)@ }),
                new == fresh(last_index(base), es),
                new == done + fresh(last_index(base + done), es.skip(i as int)),
                left == budget - done.len(),
                log == old(self)@.entries,
                base == repaired(log, es),
                report.completed - budget == (if conflict(log, es) is Some {
                    1int
                } else {
                    0int
                }),
                prev_matches(log, prev_log_index, prev_log_term),
            decreases entries.len() - i,
        {
            let ghost rest = es.skip(i as int);
            assert(rest[0] == es[i as int]);
            assert(rest.drop_first() =~= es.skip(i + 1));
            if entries[i].index > self.last_index() {
                if left == 0 {
                    assert(new.len() > done.len());
                    assert(base + done =~= merged(log, es, report.completed as nat)) by {
                        assert(new.take(done.len() as int) =~= done);
                    }
                    return Err(RaftError::StorageFailure(owned(report.error.as_str())));
                }
                left = left - 1;
                self.entries.push(entries[i].clone());
                proof {
                    let grown = done.push(es[i as int]);
                    assert(base + grown =~= (base + done).push(es[i as int]));
                    assert(self@.entries =~= base + grown);
                    assert(last_index(base + grown) == es[i as int].index);
                    assert(new =~= grown + fresh(last_index(base + grown), es.skip(i + 1)));
                    done = grown;
                }
            }
            i += 1;
        }
        assert(es.skip(i as int) =~= Seq::empty());
        assert(done =~= new);
        assert(base + done =~= merged(log, es, report.completed as nat)) by {
            assert(new.take(new.len() as int) =~= new);
        }
        Ok(())
    }

    /// The last index of the log without the entries at or above `bound`.
    fn last_index_below(&self, bound: u64) -> (index: u64)
        ensures
            index == last_index(truncated(self@.entries, bound)),
    {
        let ghost log = self@.entries;
        let ghost keep = |e: Entry| e.index < bound;
        let mut index: u64 = 0;
        let mut i: usize = 0;
        assert(log.take(0) =~= Seq::empty());
        reveal(Seq::filter);
        while i < self.entries.len()
            invariant
                i <= self.entries.len(),
                log == self@.entries,
                keep == (|e: Entry| e.index < bound),
                index == last_index(log.take(i as int).filter(keep)),
            decreases self.entries.len() - i,
        {
            reveal(Seq::filter);
            assert(log.take(i + 1).drop_last() =~= log.take(i as int));
            assert(log.take(i + 1).last() == log[i as int]);
            if self.entries[i].index < bound {
                index = self.entries[i].index;
            }
            i += 1;
        }
        assert(log.take(i as int) =~= log);
        index
    }

    /// Drop all entries with index >= `from_index` from memory. The matching
    /// storage operation is [`LogOp::Truncate`].
    pub fn truncate_from(&mut self, from_index: u64)
        ensures
            final(self)@ == (LogState {
                entries: truncated(old(self)@.entries, from_index),
                ..old(self)@
            }),
    {
        let ghost log = self@.entries;
        let ghost keep = |e: Entry| e.index < from_index;
        let mut kept: Vec<LogEntry> = Vec::new();
        let mut i: usize = 0;
        reveal(Seq::filter);
        assert(log.take(0) =~= Seq::empty());
        assert(entry_views(kept@) =~= log.take(0).filter(keep));
        while i < self.entries.len()
            invariant
                i <= self.entries.len(),
                *self == *old(self),
                log == self@.entries,
                keep == (|e: Entry| e.index < from_index),
                entry_views(kept@) == log.take(i as int).filter(keep),
            decreases self.entries.len() - i,
        {
            reveal(Seq::filter);
            assert(log.take(i + 1).drop_last() =~= log.take(i as int));
            assert(log.take(i + 1).last() == log[i as int]);
            if self.entries[i].index < from_index {
                let ghost before = kept@;
                kept.push(self.entries[i].clone());
                assert(entry_views(kept@) =~= entry_views(before).push(log[i as int]));
            }
            i += 1;
        }
        assert(log.take(i as int) =~= log);
        self.entries = kept;
    }

    /// Return the current commit index.
    pub fn commit_index(&self) -> (index: u64)
        ensures
            index == self@.commit,
    {
        self.commit_index
    }

    /// Advance the commit index. A lower index is ignored.
    pub fn set_commit_index(&mut self, index: u64)
        ensures
            final(self)@ == old(self)@.committed_to(index),
    {
        if index > self.commit_index {
            self.commit_index = index;
        }
    }

    /// Return the last applied index.
    pub fn last_applied(&self) -> (index: u64)
        ensures
            index == self@.applied,
    {
        self.last_applied
    }

    /// Set the last applied index.
    pub fn set_last_applied(&mut self, index: u64)
        ensures
            final(self)@ == (LogState { applied: index, ..old(self)@ }),
    {
        self.last_applied = index;
    }

    /// Return entries that are committed but not yet applied.
    pub fn unapplied_entries(&self) -> (out: Vec<LogEntry>)
        ensures
            entry_views(out@) == self@.unapplied(),
    {
        if self.last_applied >= self.commit_index {
            let out: Vec<LogEntry> = Vec::new();
            assert(entry_views(out@) =~= Seq::empty());
            return out;
        }
        self.entries_range(self.last_applied + 1, self.commit_index)
    }

    /// Return the number of entries in the log.
    pub fn len(&self) -> (n: usize)
        ensures
            n == self@.entries.len(),
    {
        self.entries.len()
    }

    /// Return `true` if the log is empty.
    pub fn is_empty(&self) -> (b: bool)
        ensures
            b == (self@.entries.len() == 0),
    {
        self.entries.len() == 0
    }
}

impl LogOp {
    /// The record index at which the write-ahead log is to be cut for a
    /// truncation at a log index.
    pub fn wal_index(from_index: u64) -> (index: u64)
        ensures
            index == (if from_index == 0 {
                0
            } else {
                from_index - 1
            }),
    {
        if from_index == 0 {
            0
        } else {
            from_index - 1
        }
    }

    /// Judge the outcome of cutting the write-ahead log: that nothing lay at or
    /// above the index is no failure.
    pub fn truncation_outcome(outcome: Result<(), StorageError>) -> (r: Result<(), RaftError>)
        ensures
            match outcome {
                Ok(()) => r is Ok,
                Err(StorageError::InvalidIndex(_)) => r is Ok,
                Err(e) => r matches Err(RaftError::StorageFailure(s)) && s@ == e.text(),
            },
    {
        match outcome {
            Ok(()) => Ok(()),
            Err(StorageError::InvalidIndex(_)) => Ok(()),
            Err(e) => Err(RaftError::StorageFailure(e.to_string())),
        }
    }
}

// ---------------------------------------------------------------------------
// Properties of logs numbered without gaps
// ---------------------------------------------------------------------------

/// In a log without gaps the entry at an index is found at the position below.
pub proof fn contiguous_lookup(log: Seq<Entry>, index: u64)
    requires
        contiguous(log),
    ensures
        last_index(log) == log.len(),
        1 <= index <= log.len() ==> entry_at(log, index) == Some(log[index - 1]) && term_at(
            log,
            index,
        ) == Some(log[index - 1].term),
        index > log.len() ==> term_at(log, index) is None,
{
    if log.len() > 0 {
        assert(log[0].index == 1);
        assert(log[log.len() - 1].index == log.len());
    }
}

/// Cutting a log without gaps leaves the entries before the cut.
pub proof fn contiguous_truncated(log: Seq<Entry>, k: int)
    requires
        contiguous(log),
        0 <= k <= log.len(),
        k < u64::MAX,
    ensures
        truncated(log, (k + 1) as u64) == log.take(k),
    decreases log.len(),
{
    reveal(Seq::filter);
    let keep = |e: Entry| e.index < (k + 1) as u64;
    if log.len() > 0 {
        let front = log.drop_last();
        assert(forall|i: int| 0 <= i < front.len() ==> (#[trigger] front[i]) == log[i]);
        assert(log.last().index == log.len());
        if k == log.len() {
            contiguous_truncated(front, k - 1);
            all_kept(front, (k + 1) as u64);
            assert(log.filter(keep) =~= log);
            assert(log.take(k) =~= log);
        } else {
            contiguous_truncated(front, k);
            assert(log.filter(keep) =~= front.filter(keep));
            assert(front.take(k) =~= log.take(k));
        }
    } else {
        assert(log.take(k) =~= log);
    }
}

proof fn all_kept(log: Seq<Entry>, bound: u64)
    requires
        forall|i: int| 0 <= i < log.len() ==> (#[trigger] log[i]).index < bound,
    ensures
        truncated(log, bound) == log,
    decreases log.len(),
{
    reveal(Seq::filter);
    if log.len() > 0 {
        all_kept(log.drop_last(), bound);
        assert(log =~= log.drop_last().push(log.last()));
    }
}

/// The part of a leader's log that extends a log without gaps.
proof fn contiguous_fresh(last: u64, entries: Seq<Entry>, prev: int)
    requires
        0 <= prev <= last,
        forall|j: int| 0 <= j < entries.len() ==> (#[trigger] entries[j]).index == prev + j + 1,
    ensures
        fresh(last, entries) == (if last - prev <= entries.len() {
            entries.skip(last - prev)
        } else {
            Seq::empty()
        }),
    decreases entries.len(),
{
    if entries.len() > 0 {
        let rest = entries.drop_first();
        assert(forall|j: int| 0 <= j < rest.len() ==> (#[trigger] rest[j]) == entries[j + 1]);
        assert(entries[0].index == prev + 1);
        if entries[0].index > last {
            contiguous_fresh(entries[0].index, rest, prev + 1);
            assert(rest.skip(0) =~= rest);
            assert(fresh(last, entries) =~= entries.skip(0));
        } else {
            contiguous_fresh(last, rest, prev + 1);
            if last - prev <= entries.len() {
                assert(rest.skip(last - prev - 1) =~= entries.skip(last - prev));
            }
        }
    } else {
        assert(entries.skip(0) =~= Seq::empty());
    }
}

/// Where a leader's entries first conflict with a log without gaps.
proof fn contiguous_conflict(log: Seq<Entry>, entries: Seq<Entry>, prev: int)
    requires
        contiguous(log),
        0 <= prev <= log.len(),
        forall|j: int| 0 <= j < entries.len() ==> (#[trigger] entries[j]).index == prev + j + 1,
    ensures
        match conflict(log, entries) {
            Some(index) => {
                &&& prev < index <= log.len()
                &&& index - 1 - prev < entries.len()
                &&& log[index - 1].term != entries[index - 1 - prev].term
                &&& forall|j: int|
                    0 <= j < index - 1 - prev ==> log[prev + j].term == (
                    #[trigger] entries[j]).term
            },
            None => forall|j: int|
                0 <= j < entries.len() && prev + j < log.len() ==> log[prev + j].term == (
                #[trigger] entries[j]).term,
        },
    decreases entries.len(),
{
    if entries.len() > 0 {
        let first = entries[0];
        assert(first.index == prev + 1);
        contiguous_lookup(log, first.index);
        let rest = entries.drop_first();
        assert(forall|j: int| 0 <= j < rest.len() ==> (#[trigger] rest[j]) == entries[j + 1]);
        if prev < log.len() && log[prev].term == first.term {
            contiguous_conflict(log, rest, prev + 1);
            match conflict(log, rest) {
                Some(index) => {
                    assert forall|j: int| 0 <= j < index - 1 - prev implies log[prev + j].term == (
                    #[trigger] entries[j]).term by {
                        if j > 0 {
                            assert(rest[j - 1] == entries[j]);
                        }
                    }
                    assert(rest[index - 1 - (prev + 1)] == entries[index - 1 - prev]);
                },
                None => {
                    assert forall|j: int|
                        0 <= j < entries.len() && prev + j < log.len() implies log[prev + j].term
                        == (#[trigger] entries[j]).term by {
                        if j > 0 {
                            assert(rest[j - 1] == entries[j]);
                        }
                    }
                },
            }
        }
    }
}

/// What taking in a stretch of a leader's log does to a log without gaps. The
/// log keeps its first `k` entries, where `k` is the first position at which the
/// terms differ, or its whole length; from there on it holds the leader's
/// entries. With all storage operations carried out it reaches the end of the
/// stretch.
pub proof fn merge_shape(
    log: Seq<Entry>,
    leader: Seq<Entry>,
    prev: int,
    entries: Seq<Entry>,
    completed: nat,
) -> (k: int)
    requires
        contiguous(log),
        contiguous(leader),
        0 <= prev <= log.len(),
        prev + entries.len() <= leader.len(),
        forall|j: int| 0 <= j < entries.len() ==> (#[trigger] entries[j]) == leader[prev + j],
    ensures
        ({
            let r = merged(log, entries, completed);
            let end = prev + entries.len();
            &&& prev <= k <= log.len()
            &&& k <= r.len()
            &&& forall|j: int| 0 <= j < k ==> (#[trigger] r[j]) == log[j]
            &&& forall|j: int| k <= j < r.len() ==> j < end && (#[trigger] r[j]) == leader[j]
            &&& forall|j: int|
                prev <= j < k && j < end ==> (#[trigger] log[j]).term == leader[j].term
            &&& k < log.len() ==> k < end && log[k].term != leader[k].term
            &&& completed >= merge_ops(log, entries).len() ==> r.len() >= end
        }),
{
    let r = merged(log, entries, completed);
    let end = prev + entries.len();
    assert forall|j: int| 0 <= j < entries.len() implies (#[trigger] entries[j]).index == prev + j
        + 1 by {
        assert(leader[prev + j].index == prev + j + 1);
    }
    contiguous_conflict(log, entries, prev);
    contiguous_lookup(log, 0);
    match conflict(log, entries) {
        Some(index) => {
            let k = index - 1;
            contiguous_truncated(log, k);
            let kept = log.take(k);
            assert(repaired(log, entries) == kept);
            assert(contiguous(kept));
            contiguous_lookup(kept, 0);
            contiguous_fresh(k as u64, entries, prev);
            assert forall|j: int| prev <= j < k && j < end implies (#[trigger] log[j]).term
                == leader[j].term by {
                assert(entries[j - prev] == leader[j]);
            }
            assert(entries[k - prev] == leader[k]);
            let new = entries.skip(k - prev);
            assert(forall|j: int| 0 <= j < new.len() ==> (#[trigger] new[j]) == leader[k + j]);
            assert(merge_ops(log, entries).len() == 1 + new.len());
            k
        },
        None => {
            let k = log.len() as int;
            assert(repaired(log, entries) == log);
            contiguous_fresh(last_index(log), entries, prev);
            let new = fresh(last_index(log), entries);
            assert(forall|j: int| 0 <= j < new.len() ==> (#[trigger] new[j]) == leader[k + j]);
            assert forall|j: int| prev <= j < k && j < end implies (#[trigger] log[j]).term
                == leader[j].term by {
                assert(entries[j - prev] == leader[j]);
            }
            assert(merge_ops(log, entries).len() == new.len());
            k
        },
    }
}

/// In a log without gaps an entry precedes new ones if it is there with the term given;
/// nothing has to precede those at the front.
pub proof fn predecessors_are_held_with_their_term(log: Seq<Entry>, prev: u64, prev_term: u64)
    requires
        contiguous(log),
    ensures
        prev_matches(log, prev, prev_term) <==> prev == 0 || (prev <= log.len() && log[prev
            - 1].term == prev_term),
{
    contiguous_lookup(log, prev);
}

/// In a log without gaps a range gives the entries from one index through another, as far
/// as there are any.
pub proof fn ranges_go_from_index_to_index(log: Seq<Entry>, from: int, to: int)
    requires
        contiguous(log),
        1 <= from,
    ensures
        from <= to <= log.len() ==> range(log, from, to) == log.subrange(from - 1, to),
        from <= log.len() < to ==> range(log, from, to) == log.skip(from - 1),
        from > to || from > log.len() ==> range(log, from, to).len() == 0,
{
    if log.len() > 0 {
        assert(log[0].index == 1);
        if from <= log.len() < to {
            assert(log.subrange(from - 1, log.len() as int) =~= log.skip(from - 1));
        }
    }
}

/// The commit index follows what it is advanced to, and never goes back.
pub proof fn commits_only_advance(log: LogState, index: u64)
    ensures
        log.committed_to(index).commit == (if index > log.commit {
            index
        } else {
            log.commit
        }),
        log.committed_to(index).entries == log.entries,
        log.committed_to(index).applied == log.applied,
{
}

/// A recovered entry has the term and the command of its record, and the index above.
pub proof fn records_become_entries(record: Record)
    requires
        record.index < u64::MAX,
    ensures
        recovered_entry(record).index == record.index + 1,
        recovered_entry(record).term == record.term,
        recovered_entry(record).command == record.data,
{
}

/// Entries count from one and records from zero: the record of an entry has the index below.
pub proof fn records_lie_one_below_their_entry(from_index: u64, index: u64)
    requires
        from_index >= 1,
        call_ensures(LogOp::wal_index, (from_index,), index),
    ensures
        index + 1 == from_index,
{
}

/// That there was nothing to cut is no failure of storage; any other failure is, in its own
/// words.
pub proof fn only_failed_cuts_are_failures(
    outcome: Result<(), StorageError>,
    r: Result<(), RaftError>,
)
    requires
        call_ensures(LogOp::truncation_outcome, (outcome,), r),
    ensures
        r is Err <==> outcome is Err && !(outcome->Err_0 is InvalidIndex),
        r matches Err(e) ==> e is StorageFailure && e->StorageFailure_0@ == outcome->Err_0.text(),
{
}

} // verus!
