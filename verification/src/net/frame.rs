//! Length-prefixed binary framing over a byte stream.
//!
//! Every message is preceded by a four-byte big-endian header with the size of
//! the payload. A stream of bytes arrives in pieces of any size; a
//! [`FrameReader`] puts them together.

use vstd::bytes::*;
use vstd::prelude::*;
use vstd::slice::*;

use crate::model::error::{IoError, IoErrorKind};
use crate::net::error::{NetError, MAX_FRAME_SIZE};

verus! {

/// The header of a frame: the payload size, the most significant byte first.
pub open spec fn header_bytes(size: u32) -> Seq<u8> {
    spec_u32_to_le_bytes(size).reverse()
}

/// The payload size that a header gives.
pub open spec fn header_size(header: Seq<u8>) -> u32 {
    spec_u32_from_le_bytes(header.reverse())
}

/// A framed payload.
pub open spec fn frame_bytes(payload: Seq<u8>) -> Seq<u8> {
    header_bytes(payload.len() as u32) + payload
}

proof fn header_round_trip(size: u32)
    ensures
        header_bytes(size).len() == 4,
        header_size(header_bytes(size)) == size,
{
    lemma_auto_spec_u32_to_from_le_bytes();
    assert(header_bytes(size).reverse() =~= spec_u32_to_le_bytes(size));
}

/// What reading a frame from a stream gives.
#[verifier::ext_equal]
pub enum FrameOutcome {
    /// The stream ended between frames.
    End,
    /// A whole frame.
    Payload(Seq<u8>),
    /// The stream ended within a frame.
    Incomplete { bytes_read: int, expected: int },
    /// The header gives a size beyond the limit.
    TooLarge { size: u32 },
}

/// What reading a frame gives on a stream that holds these bytes and then ends.
pub open spec fn frame_outcome(stream: Seq<u8>) -> FrameOutcome {
    if stream.len() == 0 {
        FrameOutcome::End
    } else if stream.len() < 4 {
        FrameOutcome::Incomplete { bytes_read: stream.len() as int, expected: 4 }
    } else {
        let size = header_size(stream.take(4));
        if size > 16_777_216 {
            FrameOutcome::TooLarge { size }
        } else if stream.len() < 4 + size {
            FrameOutcome::Incomplete { bytes_read: stream.len() - 4, expected: size as int }
        } else {
            FrameOutcome::Payload(stream.subrange(4, 4 + size))
        }
    }
}

/// How many bytes are still missing to decide on a frame.
pub open spec fn missing(stream: Seq<u8>) -> int {
    if stream.len() < 4 {
        4 - stream.len()
    } else {
        let size = header_size(stream.take(4));
        if stream.len() < 4 + size {
            4 + size - stream.len()
        } else {
            0
        }
    }
}

/// A frame that was written is read back whole, whatever follows it on the stream,
/// and reading it takes no byte of what follows.
pub proof fn frame_round_trip(payload: Seq<u8>, rest: Seq<u8>)
    requires
        payload.len() <= 16_777_216,
    ensures
        frame_outcome(frame_bytes(payload) + rest) == FrameOutcome::Payload(payload),
        missing(frame_bytes(payload)) == 0,
        (frame_bytes(payload) + rest).skip(4int + payload.len()) == rest,
{
    header_round_trip(payload.len() as u32);
    let frame = frame_bytes(payload);
    let stream = frame + rest;
    assert(stream.take(4) =~= header_bytes(payload.len() as u32));
    assert(frame.take(4) =~= header_bytes(payload.len() as u32));
    assert(stream.subrange(4, 4int + payload.len()) =~= payload);
    assert(stream.skip(4int + payload.len()) =~= rest);
}

/// A frame that was cut off is told apart from a stream that ended between frames.
pub proof fn cut_frame_is_incomplete(payload: Seq<u8>, cut: int)
    requires
        payload.len() <= 16_777_216,
        0 < cut < frame_bytes(payload).len(),
    ensures
        frame_outcome(frame_bytes(payload).take(cut)) is Incomplete,
{
    header_round_trip(payload.len() as u32);
    if cut >= 4 {
        assert(frame_bytes(payload).take(cut).take(4) =~= header_bytes(payload.len() as u32));
    }
}

/// Frame a payload.
pub fn encode_frame(payload: &[u8]) -> (r: Result<Vec<u8>, NetError>)
    ensures
        match r {
            Ok(out) => payload@.len() <= 16_777_216 && out@ == frame_bytes(payload@),
            Err(e) => payload@.len() > 16_777_216 && e == (NetError::FrameTooLarge {
                size: payload@.len() as u32,
            }),
        },
{
    let len: usize = payload.len();
    if len > MAX_FRAME_SIZE as usize {
        return Err(NetError::FrameTooLarge { size: #[verifier::truncate] (len as u32) });
    }
    let little = u32_to_le_bytes(len as u32);
    let mut out: Vec<u8> = Vec::new();
    out.push(little[3]);
    out.push(little[2]);
    out.push(little[1]);
    out.push(little[0]);
    assert(out@ =~= header_bytes(len as u32));
    out.extend_from_slice(payload);
    Ok(out)
}

/// A frame that is being read.
#[derive(Debug)]
pub struct FrameReader {
    /// The bytes that have been received.
    pub received: Vec<u8>,
}

impl FrameReader {
    /// Start on a frame.
    pub fn new() -> (r: Self)
        ensures
            r.received@ == Seq::<u8>::empty(),
    {
        FrameReader { received: Vec::new() }
    }

    /// The payload size, once the header is there.
    fn size(&self) -> (r: Option<u32>)
        ensures
            match r {
                None => self.received@.len() < 4,
                Some(size) => self.received@.len() >= 4 && size == header_size(
                    self.received@.take(4),
                ),
            },
    {
        if self.received.len() < 4 {
            return None;
        }
        let mut little: Vec<u8> = Vec::new();
        little.push(self.received[3]);
        little.push(self.received[2]);
        little.push(self.received[1]);
        little.push(self.received[0]);
        assert(little@ =~= self.received@.take(4).reverse());
        Some(u32_from_le_bytes(little.as_slice()))
    }

    /// How many more bytes to read. A header that gives a size beyond the limit is
    /// refused before any of the payload is read.
    pub fn poll(&self) -> (r: Result<usize, NetError>)
        ensures
            match r {
                Ok(n) => frame_outcome(self.received@) !is TooLarge && n == missing(self.received@),
                Err(e) => frame_outcome(self.received@) matches FrameOutcome::TooLarge { size }
                    && e == (NetError::FrameTooLarge { size }),
            },
    {
        match self.size() {
            None => Ok(4 - self.received.len()),
            Some(size) => {
                if size > MAX_FRAME_SIZE {
                    return Err(NetError::FrameTooLarge { size });
                }
                let have: usize = self.received.len() - 4;
                if have < size as usize {
                    Ok(size as usize - have)
                } else {
                    Ok(0)
                }
            },
        }
    }

    /// Take in bytes from the stream.
    pub fn push(&mut self, bytes: &[u8])
        ensures
            final(self).received@ == old(self).received@ + bytes@,
    {
        self.received.extend_from_slice(bytes);
    }

    /// The outcome on what has been received, if nothing more comes.
    pub fn close(&self) -> (r: Result<Option<Vec<u8>>, NetError>)
        ensures
            match frame_outcome(self.received@) {
                FrameOutcome::End => r is Ok && r->Ok_0 is None,
                FrameOutcome::Payload(payload) => r is Ok && r->Ok_0 is Some && r->Ok_0->Some_0@
                    == payload,
                FrameOutcome::Incomplete { bytes_read, expected } => r is Err && (
                r->Err_0 matches NetError::IncompleteFrame { bytes_read: b, expected: x } && b
                    == bytes_read && x == expected),
                FrameOutcome::TooLarge { size } => r is Err && r->Err_0 == (
                NetError::FrameTooLarge { size }),
            },
    {
        let total: usize = self.received.len();
        if total == 0 {
            return Ok(None);
        }
        match self.size() {
            None => Err(NetError::IncompleteFrame { bytes_read: total, expected: 4 }),
            Some(size) => {
                if size > MAX_FRAME_SIZE {
                    return Err(NetError::FrameTooLarge { size });
                }
                let have: usize = total - 4;
                if have < size as usize {
                    return Err(
                        NetError::IncompleteFrame { bytes_read: have, expected: size as usize },
                    );
                }
                let mut payload: Vec<u8> = Vec::new();
                payload.extend_from_slice(
                    slice_subrange(self.received.as_slice(), 4, 4 + size as usize),
                );
                assert(payload@ =~= self.received@.subrange(4, 4 + size));
                Ok(Some(payload))
            },
        }
    }
}

/// Classify an I/O error: resets, aborts and broken pipes mean that the connection
/// is gone, everything else stays an I/O error.
pub fn classify_io_error(e: IoError) -> (r: NetError)
    ensures
        match e.kind {
            IoErrorKind::ConnectionReset
            | IoErrorKind::ConnectionAborted
            | IoErrorKind::BrokenPipe => r == NetError::ConnectionReset(e.message),
            _ => r == NetError::Io(e),
        },
{
    match e.kind {
        IoErrorKind::ConnectionReset
        | IoErrorKind::ConnectionAborted
        | IoErrorKind::BrokenPipe => NetError::ConnectionReset(e.message),
        _ => NetError::Io(e),
    }
}

/// The header holds the payload's size in four bytes, the most significant first, and
/// reading it goes the other way.
pub proof fn headers_are_big_endian(size: u32, header: Seq<u8>)
    requires
        header.len() == 4,
    ensures
        header_bytes(size).len() == 4,
        header_bytes(size)[0] == spec_u32_to_le_bytes(size)[3],
        header_bytes(size)[1] == spec_u32_to_le_bytes(size)[2],
        header_bytes(size)[2] == spec_u32_to_le_bytes(size)[1],
        header_bytes(size)[3] == spec_u32_to_le_bytes(size)[0],
        header_size(header) == spec_u32_from_le_bytes(
            seq![header[3], header[2], header[1], header[0]],
        ),
{
    lemma_auto_spec_u32_to_from_le_bytes();
    assert(header.reverse() =~= seq![header[3], header[2], header[1], header[0]]);
}

/// What is read goes by how much there is: nothing is the end, part of a header or of a
/// payload is incomplete, a size over 16 MiB is refused whatever follows, and otherwise the
/// payload is the bytes of that size behind the header. What is missing is what the header
/// and then the payload still lack.
pub proof fn reading_goes_by_the_header(stream: Seq<u8>)
    ensures
        stream.len() == 0 ==> frame_outcome(stream) is End,
        0 < stream.len() < 4 ==> frame_outcome(stream) == (FrameOutcome::Incomplete {
            bytes_read: stream.len() as int,
            expected: 4,
        }),
        stream.len() < 4 ==> missing(stream) == 4 - stream.len(),
        stream.len() >= 4 ==> {
            let size = header_size(stream.take(4));
            let have = stream.len() - 4;
            &&& size > 16_777_216 ==> frame_outcome(stream) == (FrameOutcome::TooLarge { size })
            &&& size <= 16_777_216 && have < size ==> frame_outcome(stream) == (
            FrameOutcome::Incomplete { bytes_read: have, expected: size as int })
            &&& size <= 16_777_216 && have >= size ==> frame_outcome(stream)
                == FrameOutcome::Payload(stream.skip(4).take(size as int))
            &&& have < size ==> missing(stream) == size - have
            &&& have >= size ==> missing(stream) == 0
        },
{
    if stream.len() >= 4 {
        let size = header_size(stream.take(4));
        if stream.len() >= 4 + size {
            assert(stream.subrange(4, 4 + size) =~= stream.skip(4).take(size as int));
        }
    }
}

/// A payload that was framed comes out of a reader that has got the frame, whole; up to
/// 16 MiB every payload can be framed, and none beyond.
pub proof fn reading_undoes_framing(
    payload: &[u8],
    framed: Result<Vec<u8>, NetError>,
    reader: FrameReader,
    r: Result<Option<Vec<u8>>, NetError>,
)
    requires
        call_ensures(encode_frame, (payload,), framed),
        framed is Ok ==> reader.received@ == framed->Ok_0@,
        call_ensures(FrameReader::close, (&reader,), r),
    ensures
        framed is Ok <==> payload@.len() <= 16_777_216,
        framed is Ok ==> r is Ok && r->Ok_0 is Some && r->Ok_0->Some_0@ == payload@,
{
    if framed is Ok {
        frame_round_trip(payload@, Seq::empty());
        assert(frame_bytes(payload@) + Seq::<u8>::empty() =~= frame_bytes(payload@));
    }
}

/// A connection counts as gone exactly when it was reset, aborted or broken; the words of
/// the failure are kept.
pub proof fn lost_connections_are_told_apart(e: IoError, r: NetError)
    requires
        call_ensures(classify_io_error, (e,), r),
    ensures
        r is ConnectionReset <==> e.kind == IoErrorKind::ConnectionReset || e.kind
            == IoErrorKind::ConnectionAborted || e.kind == IoErrorKind::BrokenPipe,
        r matches NetError::ConnectionReset(s) ==> s == e.message,
        !(r is ConnectionReset) ==> r == NetError::Io(e),
{
}

} // verus!
