//! Write-ahead log.
//!
//! The log file is a sequence of frames. Each frame is the length of its payload
//! as a little-endian `u64`, then the payload: an encoded [`WalEntry`]. Recovery
//! reads complete frames from the front; the first incomplete one is a torn write
//! and is discarded along with everything after it.
//!
//! This module works on the bytes of the file. The caller reads them, writes the
//! frames that [`Wal::append`] produces, and cuts the file where
//! [`Wal::open`] and [`Wal::truncate_from`] say.

use vstd::bytes::*;
use vstd::prelude::*;

use crate::encoding::{
    blob_bytes, blob_unique, put_blob, put_u64, starts_with, starts_with_both, u64_bytes,
    u64_unique, Reader,
};
use crate::model::error::LeviathanError;
use crate::storage::error::StorageError;
use crate::text::{decimal, owned, push_decimal};

verus! {

/// The largest payload of a frame. A longer one is taken for a corrupt length
/// prefix.
pub const MAX_PAYLOAD: usize = 268_435_456;

/// Mathematical view of a [`WalEntry`].
#[verifier::ext_equal]
pub struct Record {
    pub index: u64,
    pub term: u64,
    pub data: Seq<u8>,
}

/// A single entry in the write-ahead log. The payload is opaque.
#[derive(Debug, Clone, PartialEq, Eq)]
pub struct WalEntry {
    /// Monotonically increasing log index.
    pub index: u64,
    /// The consensus term in which this entry was produced.
    pub term: u64,
    /// Opaque byte payload.
    pub data: Vec<u8>,
}

impl View for WalEntry {
    type V = Record;

    open spec fn view(&self) -> Record {
        Record { index: self.index, term: self.term, data: self.data@ }
    }
}

/// The views of a sequence of entries.
pub open spec fn record_views(entries: Seq<WalEntry>) -> Seq<Record> {
    Seq::new(entries.len(), |i: int| entries[i]@)
}

// ---------------------------------------------------------------------------
// The file format
// ---------------------------------------------------------------------------

/// The encoding of a record.
pub open spec fn record_bytes(r: Record) -> Seq<u8> {
    u64_bytes(r.index) + u64_bytes(r.term) + blob_bytes(r.data)
}

/// The frame of a record.
pub open spec fn frame_bytes(r: Record) -> Seq<u8> {
    blob_bytes(record_bytes(r))
}

/// The image begins with a complete frame that has the payload.
pub open spec fn framed(image: Seq<u8>, payload: Seq<u8>) -> bool {
    payload.len() <= MAX_PAYLOAD && starts_with(image, blob_bytes(payload))
}

/// The payload of the complete frame at the front of an image, if there is one.
pub open spec fn first_payload(image: Seq<u8>) -> Option<Seq<u8>> {
    if exists|p: Seq<u8>| framed(image, p) {
        Some(choose|p: Seq<u8>| framed(image, p))
    } else {
        None
    }
}

/// The record that a payload encodes, if it encodes one.
pub open spec fn record_in(payload: Seq<u8>) -> Option<Record> {
    if exists|r: Record| starts_with(payload, record_bytes(r)) {
        Some(choose|r: Record| starts_with(payload, record_bytes(r)))
    } else {
        None
    }
}

/// What reading an image from the front yields.
#[verifier::ext_equal]
pub struct Scan {
    /// The records of the complete frames, up to the first that cannot be
    /// decoded.
    pub records: Seq<Record>,
    /// The number of bytes that those frames take.
    pub end: int,
    /// Whether a complete frame could not be decoded.
    pub corrupt: bool,
}

/// Read the complete frames of an image.
pub open spec fn scan(image: Seq<u8>) -> Scan
    decreases image.len(),
{
    match first_payload(image) {
        None => Scan { records: Seq::empty(), end: 0, corrupt: false },
        Some(payload) => match record_in(payload) {
            None => Scan { records: Seq::empty(), end: 0, corrupt: true },
            Some(r) => {
                let n = 8 + payload.len();
                if n <= image.len() {
                    let rest = scan(image.skip(n as int));
                    Scan {
                        records: seq![r] + rest.records,
                        end: n + rest.end,
                        corrupt: rest.corrupt,
                    }
                } else {
                    Scan { records: Seq::empty(), end: 0, corrupt: false }
                }
            },
        },
    }
}

/// An image that consists of complete frames throughout.
pub open spec fn intact(image: Seq<u8>) -> bool {
    scan(image).end == image.len() && !scan(image).corrupt
}

/// The position of the first record whose index is not below `index`, or the
/// number of records.
pub open spec fn cut_position(records: Seq<Record>, index: u64) -> int
    decreases records.len(),
{
    if records.len() == 0 || records[0].index >= index {
        0
    } else {
        1 + cut_position(records.drop_first(), index)
    }
}

/// The number of bytes that the first `n` frames of an image take.
pub open spec fn frames_len(image: Seq<u8>, n: int) -> int
    decreases n,
{
    if n <= 0 {
        0
    } else {
        match first_payload(image) {
            None => 0,
            Some(payload) => 8 + payload.len() + frames_len(
                image.skip(8 + payload.len() as int),
                n - 1,
            ),
        }
    }
}

/// The index that follows those of the records.
pub open spec fn index_after(records: Seq<Record>) -> int {
    if records.len() == 0 {
        0
    } else {
        records.last().index + 1
    }
}

// ---------------------------------------------------------------------------
// Properties of the format
// ---------------------------------------------------------------------------

proof fn u64_len(v: u64)
    ensures
        u64_bytes(v).len() == 8,
{
    lemma_auto_spec_u64_to_from_le_bytes();
}

proof fn blob_len(p: Seq<u8>)
    ensures
        blob_bytes(p).len() == 8 + p.len(),
{
    u64_len(p.len() as u64);
}

/// The frame at the front of an image is the only one there.
pub proof fn first_payload_is(image: Seq<u8>, payload: Seq<u8>)
    requires
        framed(image, payload),
    ensures
        first_payload(image) == Some(payload),
        8 + payload.len() <= image.len(),
{
    let p = choose|p: Seq<u8>| framed(image, p);
    assert(framed(image, p));
    blob_unique(image, p, payload);
    blob_len(payload);
}

/// A payload encodes at most one record.
pub proof fn record_in_is(payload: Seq<u8>, r: Record)
    requires
        starts_with(payload, record_bytes(r)),
        payload.len() <= u64::MAX,
    ensures
        record_in(payload) == Some(r),
{
    let q = choose|q: Record| starts_with(payload, record_bytes(q));
    assert(starts_with(payload, record_bytes(q)));
    record_unique(payload, q, r);
}

proof fn record_unique(payload: Seq<u8>, q: Record, r: Record)
    requires
        starts_with(payload, record_bytes(q)),
        starts_with(payload, record_bytes(r)),
        payload.len() <= u64::MAX,
    ensures
        q == r,
{
    let qh = u64_bytes(q.index) + u64_bytes(q.term);
    let rh = u64_bytes(r.index) + u64_bytes(r.term);
    starts_with_both(payload, qh, blob_bytes(q.data));
    starts_with_both(payload, rh, blob_bytes(r.data));
    starts_with_both(payload, u64_bytes(q.index), u64_bytes(q.term));
    starts_with_both(payload, u64_bytes(r.index), u64_bytes(r.term));
    u64_unique(payload, q.index, r.index);
    u64_unique(payload.skip(8), q.term, r.term);
    blob_len(q.data);
    blob_len(r.data);
    blob_unique(payload.skip(qh.len() as int), q.data, r.data);
}

/// A complete frame stays complete when more follows.
proof fn framed_extends(image: Seq<u8>, tail: Seq<u8>, payload: Seq<u8>)
    requires
        framed(image, payload),
    ensures
        framed(image + tail, payload),
        (image + tail).skip(8 + payload.len() as int) == image.skip(8 + payload.len() as int)
            + tail,
{
    blob_len(payload);
    let n = 8 + payload.len() as int;
    assert((image + tail).take(n) =~= image.take(n));
    assert((image + tail).skip(n) =~= image.skip(n) + tail);
}

/// Bytes that follow an intact image are read as if they stood alone.
pub proof fn scan_extends(image: Seq<u8>, tail: Seq<u8>)
    requires
        intact(image),
    ensures
        scan(image + tail) == (Scan {
            records: scan(image).records + scan(tail).records,
            end: image.len() + scan(tail).end,
            corrupt: scan(tail).corrupt,
        }),
    decreases image.len(),
{
    match first_payload(image) {
        None => {
            assert(image.len() == 0);
            assert(image + tail =~= tail);
            assert(scan(image).records + scan(tail).records =~= scan(tail).records);
        },
        Some(payload) => {
            assert(framed(image, payload));
            first_payload_is(image, payload);
            framed_extends(image, tail, payload);
            first_payload_is(image + tail, payload);
            let n = 8 + payload.len() as int;
            let rest = image.skip(n);
            scan_extends(rest, tail);
            assert(scan(image + tail).records =~= scan(image).records + scan(tail).records);
        },
    }
}

/// Reading gives back what was appended: an intact image followed by the frame of
/// a record is intact and yields that record last.
pub proof fn read_after_append(image: Seq<u8>, r: Record)
    requires
        intact(image),
        record_bytes(r).len() <= MAX_PAYLOAD,
    ensures
        intact(image + frame_bytes(r)),
        scan(image + frame_bytes(r)).records == scan(image).records.push(r),
{
    let frame = frame_bytes(r);
    let payload = record_bytes(r);
    blob_len(payload);
    assert(frame.take(frame.len() as int) =~= frame);
    first_payload_is(frame, payload);
    assert(payload.take(payload.len() as int) =~= payload);
    record_in_is(payload, r);
    let rest = frame.skip(frame.len() as int);
    assert(rest.len() == 0);
    empty_scan(rest);
    assert(scan(frame).records =~= seq![r]);
    scan_extends(image, frame);
    assert(scan(image + frame).records =~= scan(image).records.push(r));
}

proof fn empty_scan(image: Seq<u8>)
    requires
        image.len() == 0,
    ensures
        scan(image) == (Scan { records: Seq::empty(), end: 0, corrupt: false }),
{
    if first_payload(image) is Some {
        let p = choose|p: Seq<u8>| framed(image, p);
        blob_len(p);
    }
}

/// Crash recovery: a frame that was only partly written after an intact image is
/// discarded, and everything before it survives.
pub proof fn torn_write_is_discarded(image: Seq<u8>, r: Record, written: int)
    requires
        intact(image),
        0 <= written < frame_bytes(r).len(),
        frame_bytes(r).len() <= u64::MAX,
    ensures
        scan(image + frame_bytes(r).take(written)) == scan(image),
{
    let frame = frame_bytes(r);
    let tail = frame.take(written);
    let payload = record_bytes(r);
    blob_len(payload);
    if first_payload(tail) is Some {
        let p = choose|p: Seq<u8>| framed(tail, p);
        blob_len(p);
        let whole = frame.take(frame.len() as int);
        assert(whole =~= frame);
        assert(frame.take(blob_bytes(p).len() as int) =~= tail.take(blob_bytes(p).len() as int));
        blob_unique(frame, p, payload);
        assert(false);
    }
    scan_extends(image, tail);
    assert(scan(image + tail).records =~= scan(image).records);
}

/// The first frames of an image are an intact image of the first records.
pub proof fn prefix_is_intact(image: Seq<u8>, n: int)
    requires
        0 <= n <= scan(image).records.len(),
    ensures
        0 <= frames_len(image, n) <= scan(image).end <= image.len(),
        intact(image.take(frames_len(image, n))),
        scan(image.take(frames_len(image, n))).records == scan(image).records.take(n),
    decreases n,
{
    if n == 0 {
        let none = image.take(0);
        empty_scan(none);
        assert(scan(image).records.take(0) =~= Seq::empty());
        scan_end(image);
    } else {
        let payload = first_payload(image)->0;
        assert(framed(image, payload));
        first_payload_is(image, payload);
        let h = 8 + payload.len() as int;
        let rest = image.skip(h);
        let r = record_in(payload)->0;
        assert(scan(image).records.drop_first() =~= scan(rest).records);
        prefix_is_intact(rest, n - 1);
        scan_end(image);
        let m = frames_len(image, n);
        let cut = image.take(m);
        blob_len(payload);
        assert(cut.take(h) =~= image.take(h));
        first_payload_is(cut, payload);
        assert(cut.skip(h) =~= rest.take(frames_len(rest, n - 1)));
        assert(scan(cut).records =~= scan(image).records.take(n));
    }
}

proof fn scan_end(image: Seq<u8>)
    ensures
        0 <= scan(image).end <= image.len(),
    decreases image.len(),
{
    if first_payload(image) is Some {
        let payload = first_payload(image)->0;
        assert(framed(image, payload));
        first_payload_is(image, payload);
        scan_end(image.skip(8 + payload.len() as int));
    }
}

/// Cutting keeps the records before the cut position: in a log with increasing
/// indices those below the index.
pub proof fn cut_keeps_lower(records: Seq<Record>, index: u64)
    requires
        forall|i: int, j: int|
            #![trigger records[i], records[j]]
            0 <= i < j < records.len() ==> records[i].index < records[j].index,
    ensures
        0 <= cut_position(records, index) <= records.len(),
        forall|i: int|
            0 <= i < records.len() ==> ((#[trigger] records[i]).index < index <==> i
                < cut_position(records, index)),
    decreases records.len(),
{
    if records.len() > 0 && records[0].index < index {
        let rest = records.drop_first();
        assert(forall|i: int| 0 <= i < rest.len() ==> #[trigger] rest[i] == records[i + 1]);
        cut_keeps_lower(rest, index);
        assert forall|i: int| 0 <= i < records.len() implies ((#[trigger] records[i]).index < index
            <==> i < cut_position(records, index)) by {
            if i > 0 {
                assert(rest[i - 1] == records[i]);
            }
        }
    }
}

// ---------------------------------------------------------------------------
// Executable log
// ---------------------------------------------------------------------------

/// Decode a record.
fn decode_record(payload: &Vec<u8>) -> (r: Result<WalEntry, String>)
    ensures
        match r {
            Ok(e) => record_in(payload@) == Some(e@),
            Err(_) => record_in(payload@) is None,
        },
{
    let total: usize = payload.len();
    let ghost input = payload@;
    proof {
        assert forall|q: Record| starts_with(input, #[trigger] record_bytes(q)) implies {
            &&& starts_with(input, u64_bytes(q.index))
            &&& starts_with(input.skip(8), u64_bytes(q.term))
            &&& starts_with(input.skip(8).skip(8), blob_bytes(q.data))
        } by {
            u64_len(q.index);
            u64_len(q.term);
            starts_with_both(
                input,
                u64_bytes(q.index) + u64_bytes(q.term),
                blob_bytes(q.data),
            );
            starts_with_both(input, u64_bytes(q.index), u64_bytes(q.term));
        }
    }
    let mut reader = Reader::new(payload.as_slice());
    let index: u64 = match reader.get_u64() {
        Ok(v) => v,
        Err(e) => return Err(e),
    };
    proof {
        u64_len(index);
    }
    let term: u64 = match reader.get_u64() {
        Ok(v) => v,
        Err(e) => return Err(e),
    };
    proof {
        u64_len(term);
    }
    match reader.get_blob() {
        Ok(data) => {
            let entry = WalEntry { index, term, data };
            proof {
                starts_with_both(input, u64_bytes(index), u64_bytes(term));
                starts_with_both(
                    input,
                    u64_bytes(index) + u64_bytes(term),
                    blob_bytes(data@),
                );
                record_in_is(input, entry@);
            }
            Ok(entry)
        },
        Err(e) => Err(e),
    }
}

/// The outcome of replaying an image.
struct Replay {
    entries: Vec<WalEntry>,
    end: usize,
    /// The decoding error of the first corrupt frame, if there is one.
    error: Option<String>,
    /// Whether the bound ended the replay.
    stopped: bool,
}

/// Read the complete frames of an image, up to the first whose index is not below
/// `bound`.
fn replay(image: &Vec<u8>, bound: Option<u64>) -> (r: Replay)
    ensures
        ({
            let all = scan(image@);
            match bound {
                None => record_views(r.entries@) == all.records && r.end == all.end && (r.error
                    is Some <==> all.corrupt),
                Some(index) => {
                    let n = cut_position(all.records, index);
                    &&& record_views(r.entries@) == all.records.take(n)
                    &&& r.end == frames_len(image@, n)
                    &&& r.error is Some <==> n == all.records.len() && all.corrupt
                    &&& r.stopped <==> n < all.records.len()
                },
            }
        }),
{
    let ghost whole = image@;
    let total: usize = image.len();
    let mut reader = Reader::new(image.as_slice());
    let mut entries: Vec<WalEntry> = Vec::new();
    let mut end: usize = 0;
    proof {
        assert(record_views(entries@) =~= Seq::empty());
        assert(scan(whole).records =~= Seq::empty() + scan(whole).records);
        assert(whole.skip(0) =~= whole);
        scan_end(whole);
    }
    loop
        invariant
            whole == image@,
            total == whole.len(),
            end <= total,
            reader.rest() == whole.skip(end as int),
            scan(whole).records == record_views(entries@) + scan(reader.rest()).records,
            scan(whole).end == end + scan(reader.rest()).end,
            scan(whole).corrupt == scan(reader.rest()).corrupt,
            bound is Some ==> forall|i: int|
                0 <= i < entries.len() ==> (#[trigger] entries[i]).index < bound->0,
            forall|k: int|
                k >= 0 ==> #[trigger] frames_len(whole, entries.len() + k) == end + frames_len(
                    reader.rest(),
                    k,
                ),
        decreases reader.rest().len(),
    {
        let ghost rest = reader.rest();
        let ghost before = record_views(entries@);
        assert(frames_len(whole, entries.len() + 0) == end + frames_len(rest, 0));
        let payload = match reader.get_blob() {
            Ok(payload) => payload,
            Err(_) => {
                proof {
                    if first_payload(rest) is Some {
                        let p = choose|p: Seq<u8>| framed(rest, p);
                        assert(starts_with(rest, blob_bytes(p)));
                    }
                    assert(before + Seq::empty() =~= before);
                    if bound is Some {
                        cut_is_all(before, bound->0);
                        assert(before.take(before.len() as int) =~= before);
                    }
                }
                return Replay { entries, end, error: None, stopped: false };
            },
        };
        if payload.len() > MAX_PAYLOAD {
            proof {
                if first_payload(rest) is Some {
                    let p = choose|p: Seq<u8>| framed(rest, p);
                    blob_len(p);
                    blob_unique(rest, p, payload@);
                }
                assert(before + Seq::empty() =~= before);
                if bound is Some {
                    cut_is_all(before, bound->0);
                    assert(before.take(before.len() as int) =~= before);
                }
            }
            return Replay { entries, end, error: None, stopped: false };
        }
        proof {
            first_payload_is(rest, payload@);
            blob_len(payload@);
        }
        match decode_record(&payload) {
            Err(e) => {
                proof {
                    assert(before + Seq::empty() =~= before);
                    if bound is Some {
                        cut_is_all(before, bound->0);
                        assert(before.take(before.len() as int) =~= before);
                    }
                }
                return Replay { entries, end, error: Some(e), stopped: false };
            },
            Ok(entry) => {
                let ghost r = entry@;
                let stop: bool = match bound {
                    Some(index) => entry.index >= index,
                    None => false,
                };
                if stop {
                    proof {
                        cut_is_here(before, scan(rest).records, bound->0);
                        assert(scan(whole).records.take(before.len() as int) =~= before);
                    }
                    return Replay { entries, end, error: None, stopped: true };
                }
                let n: usize = 8 + payload.len();
                proof {
                    let next = rest.skip(n as int);
                    assert(next =~= whole.skip(end + n));
                    assert(scan(rest).records == seq![r] + scan(next).records);
                    assert(scan(whole).records =~= before.push(r) + scan(next).records);
                    assert forall|k: int| k >= 0 implies #[trigger] frames_len(
                        whole,
                        entries.len() + 1 + k,
                    ) == end + n + frames_len(next, k) by {
                        assert(frames_len(whole, entries.len() + (k + 1)) == end + frames_len(
                            rest,
                            k + 1,
                        ));
                    }
                }
                let ghost len = entries.len();
                entries.push(entry);
                end = end + n;
                proof {
                    assert(record_views(entries@) =~= before.push(r));
                    assert forall|k: int| k >= 0 implies #[trigger] frames_len(
                        whole,
                        entries.len() + k,
                    ) == end + frames_len(reader.rest(), k) by {
                        assert(frames_len(whole, len + 1 + k) == end + frames_len(
                            reader.rest(),
                            k,
                        ));
                    }
                }
            },
        }
    }
}

proof fn cut_is_all(records: Seq<Record>, index: u64)
    requires
        forall|i: int| 0 <= i < records.len() ==> (#[trigger] records[i]).index < index,
    ensures
        cut_position(records, index) == records.len(),
    decreases records.len(),
{
    if records.len() > 0 {
        cut_is_all(records.drop_first(), index);
    }
}

proof fn cut_is_here(a: Seq<Record>, b: Seq<Record>, index: u64)
    requires
        forall|i: int| 0 <= i < a.len() ==> (#[trigger] a[i]).index < index,
        b.len() > 0,
        b[0].index >= index,
    ensures
        cut_position(a + b, index) == a.len(),
    decreases a.len(),
{
    if a.len() > 0 {
        cut_is_here(a.drop_first(), b, index);
        assert((a + b).drop_first() =~= a.drop_first() + b);
    } else {
        assert(a + b =~= b);
    }
}

/// The write-ahead log: the index that the next entry gets.
#[derive(Debug)]
pub struct Wal {
    /// The next index that will be assigned to an appended entry.
    pub next_index: u64,
}

impl Wal {
    /// Open a log from the bytes of its file. The second result is the number of
    /// bytes to keep: what follows is a torn write.
    pub fn open(image: &Vec<u8>) -> (r: Result<(Self, usize), StorageError>)
        requires
            index_after(scan(image@).records) <= u64::MAX,
        ensures
            match r {
                Ok((wal, keep)) => {
                    &&& !scan(image@).corrupt
                    &&& wal.next_index == index_after(scan(image@).records)
                    &&& keep == scan(image@).end
                },
                Err(e) => scan(image@).corrupt && e is Serialization,
            },
    {
        let found = replay(image, None);
        match found.error {
            Some(e) => Err(StorageError::Serialization(e)),
            None => {
                let n: usize = found.entries.len();
                let ghost records = record_views(found.entries@);
                let next_index: u64 = if n == 0 {
                    0
                } else {
                    assert(records.last() == found.entries[n - 1]@);
                    found.entries[n - 1].index + 1
                };
                Ok((Wal { next_index }, found.end))
            },
        }
    }

    /// Produce the frame that appends an entry. The entry's index is replaced by
    /// the log's own counter. Once the frame is in the file, call
    /// [`Wal::advance`].
    pub fn append(&self, entry: WalEntry) -> (frame: Vec<u8>)
        ensures
            frame@ == frame_bytes(Record { index: self.next_index, ..entry@ }),
    {
        let mut payload: Vec<u8> = Vec::new();
        put_u64(&mut payload, self.next_index);
        put_u64(&mut payload, entry.term);
        put_blob(&mut payload, &entry.data);
        assert(payload@ =~= record_bytes(Record { index: self.next_index, ..entry@ }));
        let mut frame: Vec<u8> = Vec::new();
        put_blob(&mut frame, &payload);
        assert(frame@ =~= blob_bytes(payload@));
        frame
    }

    /// Count an entry whose frame has been written.
    pub fn advance(&mut self)
        requires
            old(self).next_index < u64::MAX,
        ensures
            final(self).next_index == old(self).next_index + 1,
    {
        self.next_index = self.next_index + 1;
    }

    /// Read every complete entry of the file. An incomplete frame at the end is
    /// ignored.
    pub fn read_all(image: &Vec<u8>) -> (r: Result<Vec<WalEntry>, StorageError>)
        ensures
            match r {
                Ok(entries) => !scan(image@).corrupt && record_views(entries@) == scan(
                    image@,
                ).records,
                Err(e) => scan(image@).corrupt && e is Serialization,
            },
    {
        let found = replay(image, None);
        match found.error {
            Some(e) => Err(StorageError::Serialization(e)),
            None => Ok(found.entries),
        }
    }

    /// Find where the file is to be cut so that the first entry at or above
    /// `index`, and everything after it, is removed. Once the file is cut, call
    /// [`Wal::truncated`].
    pub fn truncate_from(image: &Vec<u8>, index: u64) -> (r: Result<usize, StorageError>)
        ensures
            ({
                let all = scan(image@);
                let n = cut_position(all.records, index);
                match r {
                    Ok(keep) => n < all.records.len() && keep == frames_len(image@, n),
                    Err(StorageError::InvalidIndex(i)) => n == all.records.len() && !all.corrupt
                        && i == index,
                    Err(e) => n == all.records.len() && all.corrupt && e is Serialization,
                }
            }),
    {
        let found = replay(image, Some(index));
        proof {
            cut_bounds(scan(image@).records, index);
        }
        match found.error {
            Some(e) => Err(StorageError::Serialization(e)),
            None => {
                if found.stopped {
                    Ok(found.end)
                } else {
                    Err(StorageError::InvalidIndex(index))
                }
            },
        }
    }

    /// Continue from the index at which the file was cut.
    pub fn truncated(&mut self, index: u64)
        ensures
            final(self).next_index == index,
    {
        self.next_index = index;
    }

    /// Return the index that the next appended entry gets.
    pub fn next_index(&self) -> (index: u64)
        ensures
            index == self.next_index,
    {
        self.next_index
    }
}

proof fn cut_bounds(records: Seq<Record>, index: u64)
    ensures
        0 <= cut_position(records, index) <= records.len(),
    decreases records.len(),
{
    if records.len() > 0 && records[0].index < index {
        cut_bounds(records.drop_first(), index);
    }
}

impl From<StorageError> for LeviathanError {
    fn from(e: StorageError) -> (r: Self)
        ensures
            match e {
                StorageError::Io(io) => r == LeviathanError::Io(io),
                StorageError::Serialization(s) => r == LeviathanError::Serialization(s),
                StorageError::CorruptEntry { index, reason } => r matches LeviathanError::Consensus(
                    s,
                ) && s@ == "corrupt WAL entry at index "@ + decimal(index as nat) + ": "@ + reason@,
                StorageError::OutOfBounds { offset, len, capacity } =>
                    r matches LeviathanError::Internal(s) && s@ == "mmap out of bounds: offset="@
                        + decimal(offset as nat) + " len="@ + decimal(len as nat) + " capacity="@
                        + decimal(capacity as nat),
                StorageError::InvalidIndex(index) => r matches LeviathanError::Consensus(s) && s@
                    == "invalid WAL truncation index: "@ + decimal(index as nat),
            },
    {
        match e {
            StorageError::Io(io) => LeviathanError::Io(io),
            StorageError::Serialization(s) => LeviathanError::Serialization(s),
            StorageError::CorruptEntry { index, reason } => {
                let mut s = owned("corrupt WAL entry at index ");
                push_decimal(&mut s, index);
                s.append(": ");
                s.append(reason.as_str());
                LeviathanError::Consensus(s)
            },
            StorageError::OutOfBounds { offset, len, capacity } => {
                let mut s = owned("mmap out of bounds: offset=");
                push_decimal(&mut s, offset as u64);
                s.append(" len=");
                push_decimal(&mut s, len as u64);
                s.append(" capacity=");
                push_decimal(&mut s, capacity as u64);
                LeviathanError::Internal(s)
            },
            StorageError::InvalidIndex(index) => {
                let mut s = owned("invalid WAL truncation index: ");
                push_decimal(&mut s, index);
                LeviathanError::Consensus(s)
            },
        }
    }
}

impl vstd::std_specs::convert::FromSpecImpl<StorageError> for LeviathanError {
    open spec fn obeys_from_spec() -> bool {
        false
    }

    open spec fn from_spec(e: StorageError) -> Self {
        arbitrary()
    }
}

// ---------------------------------------------------------------------------
// What the file holds
// ---------------------------------------------------------------------------

/// The file to which records were appended one by one.
pub open spec fn image_of(records: Seq<Record>) -> Seq<u8>
    decreases records.len(),
{
    if records.len() == 0 {
        Seq::empty()
    } else {
        image_of(records.drop_last()) + frame_bytes(records.last())
    }
}

/// Whatever was appended is read back: all of it, in order, with index, term and data, and
/// without anything left over. The next index follows the last one.
pub proof fn all_that_was_appended_is_read(records: Seq<Record>)
    requires
        forall|i: int|
            0 <= i < records.len() ==> record_bytes(#[trigger] records[i]).len() <= 268_435_456,
    ensures
        scan(image_of(records)).records == records,
        scan(image_of(records)).end == image_of(records).len(),
        !scan(image_of(records)).corrupt,
        records.len() == 0 ==> index_after(scan(image_of(records)).records) == 0,
        records.len() > 0 ==> index_after(scan(image_of(records)).records)
            == records[records.len() - 1].index + 1,
    decreases records.len(),
{
    if records.len() == 0 {
        empty_scan(image_of(records));
        assert(records =~= Seq::empty());
    } else {
        let before = records.drop_last();
        assert forall|i: int| 0 <= i < before.len() implies record_bytes(
            #[trigger] before[i],
        ).len() <= 268_435_456 by {
            assert(before[i] == records[i]);
        }
        all_that_was_appended_is_read(before);
        assert(records[records.len() - 1] == records.last());
        read_after_append(image_of(before), records.last());
        assert(before.push(records.last()) =~= records);
    }
}

/// A complete frame that holds no record makes the file corrupt; what lies before it is
/// still read.
pub proof fn undecodable_frames_are_reported(image: Seq<u8>, payload: Seq<u8>, rest: Seq<u8>)
    requires
        intact(image),
        payload.len() <= 268_435_456,
        forall|r: Record| !starts_with(payload, #[trigger] record_bytes(r)),
    ensures
        scan(image + (blob_bytes(payload) + rest)).corrupt,
        scan(image + (blob_bytes(payload) + rest)).records == scan(image).records,
        scan(image + (blob_bytes(payload) + rest)).end == image.len(),
{
    let tail = blob_bytes(payload) + rest;
    blob_len(payload);
    assert(tail.take(blob_bytes(payload).len() as int) =~= blob_bytes(payload));
    first_payload_is(tail, payload);
    assert(scan(tail) == (Scan { records: Seq::empty(), end: 0, corrupt: true }));
    scan_extends(image, tail);
    assert(scan(image).records + Seq::<Record>::empty() =~= scan(image).records);
}

/// Where a log is cut for an index: everything before the cut has a lower index, and what
/// stands at the cut, if anything does, has not.
pub proof fn cuts_come_before_the_index(records: Seq<Record>, index: u64)
    ensures
        0 <= cut_position(records, index) <= records.len(),
        forall|i: int|
            0 <= i < cut_position(records, index) ==> (#[trigger] records[i]).index < index,
        cut_position(records, index) < records.len() ==> records[cut_position(
            records,
            index,
        )].index >= index,
    decreases records.len(),
{
    if records.len() > 0 && records[0].index < index {
        let rest = records.drop_first();
        cuts_come_before_the_index(rest, index);
        let n = cut_position(rest, index);
        assert forall|i: int| 0 <= i < n + 1 implies (#[trigger] records[i]).index < index by {
            if i > 0 {
                assert(records[i] == rest[i - 1]);
            }
        }
        if n < rest.len() {
            assert(rest[n] == records[n + 1]);
        }
    }
}

/// A file that is cut for an index holds exactly what was before the first record at or
/// above it, as it was, and what is appended after that follows it.
pub proof fn cut_files_keep_what_is_below(image: Seq<u8>, index: u64, next: Record)
    requires
        cut_position(scan(image).records, index) < scan(image).records.len(),
        record_bytes(next).len() <= 268_435_456,
    ensures
        ({
            let all = scan(image).records;
            let n = cut_position(all, index);
            let kept = image.take(frames_len(image, n));
            &&& frames_len(image, n) <= image.len()
            &&& scan(kept).records == all.subrange(0, n)
            &&& !scan(kept).corrupt
            &&& scan(kept).end == kept.len()
            &&& scan(kept + frame_bytes(next)).records == all.subrange(0, n).push(next)
        }),
{
    let all = scan(image).records;
    cuts_come_before_the_index(all, index);
    let n = cut_position(all, index);
    prefix_is_intact(image, n);
    assert(all.take(n) =~= all.subrange(0, n));
    read_after_append(image.take(frames_len(image, n)), next);
}

/// A record is stored as its index, its term, the length of its data and the data, after
/// the length of all that.
pub proof fn records_are_laid_out_in_order(r: Record)
    ensures
        record_bytes(r) == u64_bytes(r.index) + u64_bytes(r.term) + u64_bytes(r.data.len() as u64)
            + r.data,
        frame_bytes(r) == u64_bytes(record_bytes(r).len() as u64) + record_bytes(r),
        record_bytes(r).len() == 24 + r.data.len(),
{
    u64_len(r.index);
    u64_len(r.term);
    u64_len(r.data.len() as u64);
    let head = u64_bytes(r.index) + u64_bytes(r.term);
    let n = u64_bytes(r.data.len() as u64);
    assert(head + (n + r.data) =~= head + n + r.data);
}

/// What is appended to a file is read from it: the entries that were there, and then the new
/// one with its term and its data, numbered by the log.
pub proof fn appended_entries_are_read(
    wal: Wal,
    entry: WalEntry,
    frame: Vec<u8>,
    before: &Vec<u8>,
    after: &Vec<u8>,
    r: Result<Vec<WalEntry>, StorageError>,
)
    requires
        intact(before@),
        call_ensures(Wal::append, (&wal, entry), frame),
        entry.data@.len() <= 200_000_000,
        after@ == before@ + frame@,
        call_ensures(Wal::read_all, (after,), r),
    ensures
        r is Ok,
        ({
            let old = scan(before@).records;
            let n = r->Ok_0@.len() as int;
            &&& n == old.len() + 1
            &&& r->Ok_0@[n - 1].index == wal.next_index
            &&& r->Ok_0@[n - 1].term == entry.term
            &&& r->Ok_0@[n - 1].data@ == entry.data@
            &&& forall|i: int| 0 <= i < n - 1 ==> (#[trigger] r->Ok_0@[i])@ == old[i]
        }),
{
    let new = Record { index: wal.next_index, ..entry@ };
    records_are_laid_out_in_order(new);
    read_after_append(before@, new);
    let views = record_views(r->Ok_0@);
    let n = r->Ok_0@.len() as int;
    assert(views == scan(before@).records.push(new));
    assert(views.len() == n);
    assert(scan(before@).records.push(new).len() == scan(before@).records.len() + 1);
    assert(views[n - 1] == r->Ok_0@[n - 1]@);
    assert forall|i: int| 0 <= i < n - 1 implies (#[trigger] r->Ok_0@[i])@ == scan(
        before@,
    ).records[i] by {
        assert(views[i] == r->Ok_0@[i]@);
    }
}

/// A log that is opened goes on numbering where its file ends, and keeps all of an intact
/// file.
pub proof fn opened_logs_go_on_where_they_end(
    image: &Vec<u8>,
    r: Result<(Wal, usize), StorageError>,
)
    requires
        intact(image@),
        call_ensures(Wal::open, (image,), r),
    ensures
        r is Ok,
        r->Ok_0.1 == image@.len(),
        scan(image@).records.len() == 0 ==> r->Ok_0.0.next_index == 0,
        scan(image@).records.len() > 0 ==> r->Ok_0.0.next_index == scan(
            image@,
        ).records.last().index + 1,
{
}

/// A file that is cut as asked holds exactly the records before the first one at or above
/// the index; where there is none, the request is refused.
pub proof fn cutting_removes_from_the_index_on(
    image: &Vec<u8>,
    index: u64,
    r: Result<usize, StorageError>,
    i: int,
)
    requires
        intact(image@),
        call_ensures(Wal::truncate_from, (image, index), r),
        0 <= i < scan(image@).records.len(),
    ensures
        scan(image@).records[i].index >= index ==> r is Ok,
        r matches Ok(keep) ==> {
            let kept = scan(image@.take(keep as int)).records;
            &&& keep <= image@.len()
            &&& kept.len() < scan(image@).records.len()
            &&& kept == scan(image@).records.take(kept.len() as int)
            &&& scan(image@).records[kept.len() as int].index >= index
            &&& i < kept.len() ==> scan(image@).records[i].index < index
        },
{
    let all = scan(image@).records;
    let n = cut_position(all, index);
    cuts_come_before_the_index(all, index);
    if r is Ok {
        prefix_is_intact(image@, n);
        assert(all.take(n).len() == n);
    }
}

} // verus!
