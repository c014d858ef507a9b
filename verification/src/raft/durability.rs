//! The Raft log and its image on disk.
//!
//! As long as every storage operation succeeds, the write-ahead log mirrors the
//! log in memory, and a restart recovers exactly that log. Records count from
//! zero and entries from one, so the record of the entry at an index has the
//! index below.

use vstd::prelude::*;

use crate::raft::log::{contiguous, contiguous_truncated, recovered_entry, truncated};
use crate::raft::message::Entry;
use crate::storage::wal::{
    cut_keeps_lower, cut_position, frame_bytes, frames_len, intact, prefix_is_intact,
    read_after_append, record_bytes, scan, Record, MAX_PAYLOAD,
};

verus! {

/// The record that stores an entry.
pub open spec fn stored_record(e: Entry) -> Record {
    Record { index: (e.index - 1) as u64, term: e.term, data: e.command }
}

/// The image holds exactly the log.
pub open spec fn mirrors(image: Seq<u8>, log: Seq<Entry>) -> bool {
    &&& contiguous(log)
    &&& intact(image)
    &&& scan(image).records == log.map_values(|e: Entry| stored_record(e))
}

/// Recovery: the log that is rebuilt from the image is the log that it mirrors.
pub proof fn recovery_restores_the_log(image: Seq<u8>, log: Seq<Entry>)
    requires
        mirrors(image, log),
    ensures
        scan(image).records.map_values(|w: Record| recovered_entry(w)) == log,
{
    let back = scan(image).records.map_values(|w: Record| recovered_entry(w));
    assert forall|i: int| 0 <= i < log.len() implies back[i] == log[i] by {
        assert(log[i].index == i + 1);
    }
    assert(back =~= log);
}

/// Appending the frame of the next entry keeps the image in step with the log.
pub proof fn append_keeps_the_mirror(image: Seq<u8>, log: Seq<Entry>, entry: Entry)
    requires
        mirrors(image, log),
        entry.index == log.len() + 1,
        record_bytes(stored_record(entry)).len() <= MAX_PAYLOAD,
    ensures
        stored_record(entry).index == log.len(),
        mirrors(image + frame_bytes(stored_record(entry)), log.push(entry)),
{
    read_after_append(image, stored_record(entry));
    assert(scan(image).records.push(stored_record(entry)) =~= log.push(entry).map_values(
        |e: Entry| stored_record(e),
    ));
}

/// Cutting the image at the record of a truncated entry keeps it in step with the
/// log.
pub proof fn truncation_keeps_the_mirror(image: Seq<u8>, log: Seq<Entry>, from_index: u64)
    requires
        mirrors(image, log),
        1 <= from_index <= log.len(),
    ensures
        ({
            let n = cut_position(scan(image).records, (from_index - 1) as u64);
            &&& n < scan(image).records.len()
            &&& mirrors(image.take(frames_len(image, n)), truncated(log, from_index))
        }),
{
    let records = scan(image).records;
    let k = from_index - 1;
    assert forall|i: int| 0 <= i < log.len() implies (#[trigger] records[i]).index == i by {
        assert(log[i].index == i + 1);
    }
    cut_keeps_lower(records, k as u64);
    let n = cut_position(records, k as u64);
    assert(records[k].index == k);
    if k > 0 {
        assert(records[k - 1].index == k - 1);
    }
    assert(n == k);
    prefix_is_intact(image, n);
    contiguous_truncated(log, k);
    assert(records.take(n) =~= log.take(k).map_values(|e: Entry| stored_record(e)));
}

} // verus!
