//! Memory-mapped fixed-size byte store, by `memmap2`.
//!
//! The mapped file belongs to one store for as long as the store lives: nothing
//! else writes to it or cuts it short.

use vstd::prelude::*;
use vstd::slice::*;

use crate::model::error::{IoError, IoErrorKind};
use crate::storage::error::StorageError;

verus! {

/// A writable memory map.
#[verifier::external_type_specification]
#[verifier::external_body]
pub struct ExMmapMut(memmap2::MmapMut);

/// The bytes of a memory map.
pub uninterp spec fn mapped(map: memmap2::MmapMut) -> Seq<u8>;

/// The map as a byte slice, by its `Deref`.
#[verifier::external_body]
fn map_bytes(map: &memmap2::MmapMut) -> (s: &[u8])
    ensures
        s@ == mapped(*map),
{
    map
}

/// `copy_from_slice` into a range of the map, by its `DerefMut`: the range holds the
/// data, the rest stays.
#[verifier::external_body]
fn map_write(map: &mut memmap2::MmapMut, offset: usize, data: &[u8])
    requires
        offset + data@.len() <= mapped(*old(map)).len(),
    ensures
        mapped(*final(map)) == mapped(*old(map)).take(offset as int) + data@ + mapped(
            *old(map),
        ).skip(offset + data@.len()),
    no_unwind
{
    map[offset..offset + data.len()].copy_from_slice(data);
}

/// `MmapMut::flush`. Whether the operating system writes the pages is up to it;
/// nothing is claimed of the outcome.
#[verifier::external_body]
fn map_flush(map: &memmap2::MmapMut) -> (r: Result<(), String>) {
    map.flush().map_err(|e| e.to_string())
}

/// The length that a file has to be extended to before it is mapped, if it is too
/// short.
pub fn extended_len(file_len: u64, size: usize) -> (r: Option<u64>)
    ensures
        r == (if file_len < size {
            Some(size as u64)
        } else {
            None
        }),
{
    if file_len < size as u64 {
        Some(size as u64)
    } else {
        None
    }
}

/// What a store reports on a flush that went as it did: success for success, and an
/// I/O error with the operating system's words for a failure.
pub fn flush_outcome(outcome: Result<(), String>) -> (r: Result<(), StorageError>)
    ensures
        match outcome {
            Ok(()) => r is Ok,
            Err(message) => r matches Err(StorageError::Io(io)) && io.kind == IoErrorKind::Other
                && io.message == message,
        },
{
    match outcome {
        Ok(()) => Ok(()),
        Err(message) => Err(StorageError::Io(IoError { kind: IoErrorKind::Other, message })),
    }
}

/// Bytes after a write.
pub open spec fn written(bytes: Seq<u8>, offset: int, data: Seq<u8>) -> Seq<u8> {
    bytes.take(offset) + data + bytes.skip(offset + data.len())
}

/// What was written is read back, and what was not stays.
pub proof fn read_after_write(bytes: Seq<u8>, offset: int, data: Seq<u8>, from: int, len: int)
    requires
        0 <= offset,
        offset + data.len() <= bytes.len(),
        0 <= from,
        0 <= len,
        from + len <= bytes.len(),
    ensures
        written(bytes, offset, data).len() == bytes.len(),
        written(bytes, offset, data).subrange(offset, offset + data.len()) == data,
        from + len <= offset || offset + data.len() <= from ==> written(
            bytes,
            offset,
            data,
        ).subrange(from, from + len) == bytes.subrange(from, from + len),
{
    let after = written(bytes, offset, data);
    assert(after.subrange(offset, offset + data.len()) =~= data);
    if from + len <= offset || offset + data.len() <= from {
        assert(after.subrange(from, from + len) =~= bytes.subrange(from, from + len));
    }
}

/// A memory-mapped, fixed-size byte store.
pub struct MmapStore {
    map: memmap2::MmapMut,
    size: usize,
}

impl View for MmapStore {
    type V = Seq<u8>;

    closed spec fn view(&self) -> Seq<u8> {
        mapped(self.map).take(self.size as int)
    }
}

impl MmapStore {
    #[verifier::type_invariant]
    spec fn inside(self) -> bool {
        self.size <= mapped(self.map).len()
    }

    /// A store over the first `size` bytes of a map, which has to be that long.
    pub fn new(map: memmap2::MmapMut, size: usize) -> (r: Result<Self, StorageError>)
        ensures
            match r {
                Ok(store) => size <= mapped(map).len() && store@ == mapped(map).take(size as int),
                Err(e) => mapped(map).len() < size && (e matches StorageError::OutOfBounds {
                    offset,
                    len,
                    capacity,
                } && offset == 0 && len == size && capacity == mapped(map).len()),
            },
    {
        let capacity: usize = map_bytes(&map).len();
        if capacity < size {
            return Err(StorageError::OutOfBounds { offset: 0, len: size, capacity });
        }
        Ok(MmapStore { map, size })
    }

    /// Write `data` starting at `offset`. It has to fit.
    pub fn write(&mut self, offset: usize, data: &[u8]) -> (r: Result<(), StorageError>)
        ensures
            match r {
                Ok(()) => offset + data@.len() <= old(self)@.len() && final(self)@ == written(
                    old(self)@,
                    offset as int,
                    data@,
                ),
                Err(e) => {
                    &&& offset + data@.len() > old(self)@.len()
                    &&& final(self)@ == old(self)@
                    &&& e matches StorageError::OutOfBounds { offset: o, len, capacity }
                    &&& o == offset && len == data@.len() && capacity == old(self)@.len()
                },
            },
    {
        proof {
            use_type_invariant(&*self);
        }
        let len: usize = data.len();
        if len > self.size || offset > self.size - len {
            return Err(StorageError::OutOfBounds { offset, len, capacity: self.size });
        }
        let ghost before = mapped(self.map);
        map_write(&mut self.map, offset, data);
        assert(self@ =~= written(before.take(self.size as int), offset as int, data@));
        Ok(())
    }

    /// Read `len` bytes starting at `offset`, without copying.
    pub fn read(&self, offset: usize, len: usize) -> (r: Result<&[u8], StorageError>)
        ensures
            match r {
                Ok(bytes) => offset + len <= self@.len() && bytes@ == self@.subrange(
                    offset as int,
                    offset + len,
                ),
                Err(e) => offset + len > self@.len() && (e matches StorageError::OutOfBounds {
                    offset: o,
                    len: l,
                    capacity,
                } && o == offset && l == len && capacity == self@.len()),
            },
    {
        proof {
            use_type_invariant(self);
        }
        if len > self.size || offset > self.size - len {
            return Err(StorageError::OutOfBounds { offset, len, capacity: self.size });
        }
        let bytes = slice_subrange(map_bytes(&self.map), offset, offset + len);
        assert(bytes@ =~= self@.subrange(offset as int, offset + len));
        Ok(bytes)
    }

    /// Flush dirty pages to the underlying file. Whether it succeeds is up to the
    /// operating system; a failure is reported as [`flush_outcome`] has it.
    pub fn flush(&self) -> (r: Result<(), StorageError>)
        ensures
            r matches Err(e) ==> (e matches StorageError::Io(io) && io.kind == IoErrorKind::Other),
    {
        flush_outcome(map_flush(&self.map))
    }

    /// Return the number of bytes in the store.
    pub fn size(&self) -> (n: usize)
        ensures
            n == self@.len(),
    {
        proof {
            use_type_invariant(self);
        }
        self.size
    }
}

/// What was written to a store is read from it, and nothing else of it has changed; what
/// does not fit is refused and changes nothing.
pub proof fn stores_give_back_what_was_written(offset: usize, data: &[u8], from: usize, len: usize)
    ensures
        forall|s: &mut MmapStore, w: Result<(), StorageError>| #[trigger]
            call_ensures(MmapStore::write, (s, offset, data), w) ==> {
                &&& w is Ok <==> offset + data@.len() <= s@.len()
                &&& final(s)@.len() == s@.len()
                &&& w is Ok ==> final(s)@.subrange(offset as int, offset + data@.len()) == data@
                &&& from + len <= s@.len() && (w is Err || from + len <= offset || offset
                    + data@.len() <= from) ==> final(s)@.subrange(from as int, from + len)
                    == s@.subrange(from as int, from + len)
            },
        forall|s: MmapStore, r: Result<&[u8], StorageError>| #[trigger]
            call_ensures(MmapStore::read, (&s, from, len), r) ==> {
                &&& r is Ok <==> from + len <= s@.len()
                &&& r is Ok ==> r->Ok_0@ == s@.subrange(from as int, from + len)
            },
{
    assert forall|s: &mut MmapStore, w: Result<(), StorageError>| #[trigger]
        call_ensures(MmapStore::write, (s, offset, data), w) implies {
        &&& w is Ok <==> offset + data@.len() <= s@.len()
        &&& final(s)@.len() == s@.len()
        &&& w is Ok ==> final(s)@.subrange(offset as int, offset + data@.len()) == data@
        &&& from + len <= s@.len() && (w is Err || from + len <= offset || offset + data@.len()
            <= from) ==> final(s)@.subrange(from as int, from + len) == s@.subrange(
            from as int,
            from + len,
        )
    } by {
        if w is Ok {
            read_after_write(s@, offset as int, data@, 0, 0);
            if from + len <= s@.len() {
                read_after_write(s@, offset as int, data@, from as int, len as int);
            }
        }
    }
}

} // verus!
