//! The binary encoding shared by the write-ahead log, the replicated commands
//! and the wire protocols.
//!
//! A value is the concatenation of its fields. Integers are little-endian, a
//! sequence of bytes or a text is preceded by its length as a `u64`, and an enum
//! by the number of its variant as a `u32`. The parts are encoded and decoded by
//! `bincode`; [`Reader`] puts them together.
//!
//! Decoding a value succeeds exactly on the inputs that start with the encoding
//! of some value, and yields that value; what follows it is left unread.

use vstd::bytes::*;
use vstd::prelude::*;
use vstd::slice::*;
use vstd::utf8::*;

verus! {

/// The encoding of a 64-bit integer.
pub open spec fn u64_bytes(v: u64) -> Seq<u8> {
    spec_u64_to_le_bytes(v)
}

/// The encoding of a 32-bit integer.
pub open spec fn u32_bytes(v: u32) -> Seq<u8> {
    spec_u32_to_le_bytes(v)
}

/// The encoding of a truth value.
pub open spec fn bool_bytes(v: bool) -> Seq<u8> {
    seq![if v { 1u8 } else { 0u8 }]
}

/// The encoding of a sequence of bytes.
pub open spec fn blob_bytes(v: Seq<u8>) -> Seq<u8> {
    u64_bytes(v.len() as u64) + v
}

/// The encoding of a text.
pub open spec fn text_bytes(v: Seq<char>) -> Seq<u8> {
    blob_bytes(encode_utf8(v))
}

/// `input` begins with `part`.
pub open spec fn starts_with(input: Seq<u8>, part: Seq<u8>) -> bool {
    part.len() <= input.len() && input.take(part.len() as int) == part
}

/// The 64-bit integer that an input begins with, and what follows it.
pub open spec fn read_u64(input: Seq<u8>) -> Option<(u64, Seq<u8>)> {
    if exists|v: u64| starts_with(input, #[trigger] u64_bytes(v)) {
        let v = choose|v: u64| starts_with(input, #[trigger] u64_bytes(v));
        Some((v, input.skip(u64_bytes(v).len() as int)))
    } else {
        None
    }
}

/// The 32-bit integer that an input begins with, and what follows it.
pub open spec fn read_u32(input: Seq<u8>) -> Option<(u32, Seq<u8>)> {
    if exists|v: u32| starts_with(input, #[trigger] u32_bytes(v)) {
        let v = choose|v: u32| starts_with(input, #[trigger] u32_bytes(v));
        Some((v, input.skip(u32_bytes(v).len() as int)))
    } else {
        None
    }
}

/// The truth value that an input begins with, and what follows it.
pub open spec fn read_bool(input: Seq<u8>) -> Option<(bool, Seq<u8>)> {
    if exists|v: bool| starts_with(input, #[trigger] bool_bytes(v)) {
        let v = choose|v: bool| starts_with(input, #[trigger] bool_bytes(v));
        Some((v, input.skip(bool_bytes(v).len() as int)))
    } else {
        None
    }
}

/// The sequence of bytes that an input begins with, and what follows it.
pub open spec fn read_blob(input: Seq<u8>) -> Option<(Seq<u8>, Seq<u8>)> {
    if exists|v: Seq<u8>| starts_with(input, #[trigger] blob_bytes(v)) {
        let v = choose|v: Seq<u8>| starts_with(input, #[trigger] blob_bytes(v));
        Some((v, input.skip(blob_bytes(v).len() as int)))
    } else {
        None
    }
}

/// The text that an input begins with, and what follows it.
pub open spec fn read_text(input: Seq<u8>) -> Option<(Seq<char>, Seq<u8>)> {
    if exists|v: Seq<char>| starts_with(input, #[trigger] text_bytes(v)) {
        let v = choose|v: Seq<char>| starts_with(input, #[trigger] text_bytes(v));
        Some((v, input.skip(text_bytes(v).len() as int)))
    } else {
        None
    }
}

// ---------------------------------------------------------------------------
// bincode
// ---------------------------------------------------------------------------

/// The error type of `bincode`.
#[verifier::external_type_specification]
#[verifier::external_body]
pub struct ExErrorKind(bincode::ErrorKind);

/// `bincode::serialize` on a `u64`: it succeeds with the eight bytes of the
/// integer, the least significant first.
#[verifier::external_body]
fn serialize_u64(v: &u64) -> (r: Result<Vec<u8>, Box<bincode::ErrorKind>>)
    ensures
        r is Ok,
        r->Ok_0@ == u64_bytes(*v),
{
    bincode::serialize(v)
}

/// `bincode::serialize` on a `u32`: it succeeds with the four bytes of the
/// integer, the least significant first.
#[verifier::external_body]
fn serialize_u32(v: &u32) -> (r: Result<Vec<u8>, Box<bincode::ErrorKind>>)
    ensures
        r is Ok,
        r->Ok_0@ == u32_bytes(*v),
{
    bincode::serialize(v)
}

/// `bincode::serialize` on a `bool`: it succeeds with a single byte, one or zero.
#[verifier::external_body]
fn serialize_bool(v: &bool) -> (r: Result<Vec<u8>, Box<bincode::ErrorKind>>)
    ensures
        r is Ok,
        r->Ok_0@ == bool_bytes(*v),
{
    bincode::serialize(v)
}

/// `bincode::serialize` on a vector of bytes: it succeeds with the length as a
/// `u64`, then the bytes.
#[verifier::external_body]
fn serialize_blob(v: &Vec<u8>) -> (r: Result<Vec<u8>, Box<bincode::ErrorKind>>)
    ensures
        r is Ok,
        r->Ok_0@ == blob_bytes(v@),
{
    bincode::serialize(v)
}

/// `bincode::serialize` on a string: it succeeds with the length in bytes as a
/// `u64`, then the UTF-8 bytes.
#[verifier::external_body]
fn serialize_text(v: &String) -> (r: Result<Vec<u8>, Box<bincode::ErrorKind>>)
    ensures
        r is Ok,
        r->Ok_0@ == text_bytes(v@),
{
    bincode::serialize(v)
}

/// `bincode::deserialize` to a `u64`: it reads the first eight bytes and ignores
/// the rest; it fails where there are fewer.
#[verifier::external_body]
fn deserialize_u64(input: &[u8]) -> (r: Result<u64, Box<bincode::ErrorKind>>)
    ensures
        match r {
            Ok(v) => starts_with(input@, u64_bytes(v)),
            Err(_) => forall|v: u64| !starts_with(input@, #[trigger] u64_bytes(v)),
        },
{
    bincode::deserialize(input)
}

/// `bincode::deserialize` to a `u32`: it reads the first four bytes and ignores
/// the rest; it fails where there are fewer.
#[verifier::external_body]
fn deserialize_u32(input: &[u8]) -> (r: Result<u32, Box<bincode::ErrorKind>>)
    ensures
        match r {
            Ok(v) => starts_with(input@, u32_bytes(v)),
            Err(_) => forall|v: u32| !starts_with(input@, #[trigger] u32_bytes(v)),
        },
{
    bincode::deserialize(input)
}

/// `bincode::deserialize` to a `bool`: it reads one byte and ignores the rest; it
/// fails where there is none, or one other than zero and one.
#[verifier::external_body]
fn deserialize_bool(input: &[u8]) -> (r: Result<bool, Box<bincode::ErrorKind>>)
    ensures
        match r {
            Ok(v) => starts_with(input@, bool_bytes(v)),
            Err(_) => forall|v: bool| !starts_with(input@, #[trigger] bool_bytes(v)),
        },
{
    bincode::deserialize(input)
}

/// `bincode::deserialize` to a vector of bytes: it reads a length and that many
/// bytes and ignores the rest; it fails where there are fewer.
#[verifier::external_body]
fn deserialize_blob(input: &[u8]) -> (r: Result<Vec<u8>, Box<bincode::ErrorKind>>)
    ensures
        match r {
            Ok(v) => starts_with(input@, blob_bytes(v@)),
            Err(_) => forall|v: Seq<u8>| !starts_with(input@, #[trigger] blob_bytes(v)),
        },
{
    bincode::deserialize(input)
}

/// `bincode::deserialize` to a string: it reads a length and that many bytes and
/// ignores the rest; it fails where there are fewer, or they are not UTF-8.
#[verifier::external_body]
fn deserialize_text(input: &[u8]) -> (r: Result<String, Box<bincode::ErrorKind>>)
    ensures
        match r {
            Ok(v) => starts_with(input@, text_bytes(v@)),
            Err(_) => forall|v: Seq<char>| !starts_with(input@, #[trigger] text_bytes(v)),
        },
{
    bincode::deserialize(input)
}

/// The message of a `bincode` error, by its `Display`. Nothing is claimed of the
/// text.
#[verifier::external_body]
pub(crate) fn error_text(e: &Box<bincode::ErrorKind>) -> String {
    e.to_string()
}

// ---------------------------------------------------------------------------
// Writing
// ---------------------------------------------------------------------------

/// Append the outcome of an encoding that cannot fail.
fn put(out: &mut Vec<u8>, part: Result<Vec<u8>, Box<bincode::ErrorKind>>)
    requires
        part is Ok,
    ensures
        final(out)@ == old(out)@ + part->Ok_0@,
{
    match part {
        Ok(bytes) => {
            let mut bytes = bytes;
            out.append(&mut bytes);
        },
        Err(_) => {},
    }
}

/// Append a 64-bit integer.
pub fn put_u64(out: &mut Vec<u8>, v: u64)
    ensures
        final(out)@ == old(out)@ + u64_bytes(v),
{
    put(out, serialize_u64(&v));
}

/// Append a 32-bit integer.
pub fn put_u32(out: &mut Vec<u8>, v: u32)
    ensures
        final(out)@ == old(out)@ + u32_bytes(v),
{
    put(out, serialize_u32(&v));
}

/// Append a truth value.
pub fn put_bool(out: &mut Vec<u8>, v: bool)
    ensures
        final(out)@ == old(out)@ + bool_bytes(v),
{
    put(out, serialize_bool(&v));
}

/// Append a sequence of bytes.
pub fn put_blob(out: &mut Vec<u8>, v: &Vec<u8>)
    ensures
        final(out)@ == old(out)@ + blob_bytes(v@),
{
    put(out, serialize_blob(v));
}

/// Append a text.
pub fn put_text(out: &mut Vec<u8>, v: &String)
    ensures
        final(out)@ == old(out)@ + text_bytes(v@),
{
    put(out, serialize_text(v));
}

// ---------------------------------------------------------------------------
// Reading
// ---------------------------------------------------------------------------

/// A position in an input.
pub struct Reader<'a> {
    input: &'a [u8],
    at: usize,
}

impl<'a> Reader<'a> {
    /// What has not been read yet.
    pub closed spec fn rest(&self) -> Seq<u8> {
        self.input@.skip(self.at as int)
    }

    #[verifier::type_invariant]
    spec fn inside(self) -> bool {
        self.at <= self.input@.len()
    }

    /// Start reading an input.
    pub fn new(input: &'a [u8]) -> (r: Self)
        ensures
            r.rest() == input@,
    {
        assert(input@.skip(0) =~= input@);
        Reader { input, at: 0 }
    }

    /// The unread input.
    fn unread(&self) -> (s: &'a [u8])
        ensures
            s@ == self.rest(),
    {
        proof {
            use_type_invariant(self);
        }
        slice_subrange(self.input, self.at, self.input.len())
    }

    /// Leave out the next `n` bytes.
    fn skip(&mut self, n: usize)
        requires
            n <= old(self).rest().len(),
        ensures
            final(self).rest() == old(self).rest().skip(n as int),
    {
        proof {
            use_type_invariant(&*self);
        }
        let total: usize = self.input.len();
        assert(self.at + n <= total);
        let at: usize = self.at + n;
        assert(self.input@.skip(at as int) =~= self.rest().skip(n as int));
        *self = Reader { input: self.input, at };
    }

    /// Read a 64-bit integer.
    pub fn get_u64(&mut self) -> (r: Result<u64, String>)
        ensures
            match r {
                Ok(v) => starts_with(old(self).rest(), u64_bytes(v)) && final(self).rest() == old(
                    self,
                ).rest().skip(u64_bytes(v).len() as int),
                Err(_) => forall|v: u64| !starts_with(old(self).rest(), #[trigger] u64_bytes(v)),
            },
            match r {
                Ok(v) => read_u64(old(self).rest()) == Some((v, final(self).rest())),
                Err(_) => read_u64(old(self).rest()) is None,
            },
    {
        proof {
            lemma_auto_spec_u64_to_from_le_bytes();
        }
        match deserialize_u64(self.unread()) {
            Ok(v) => {
                assert(u64_bytes(v).len() == 8);
                self.skip(8);
                proof {
                    read_u64_is(old(self).rest(), v);
                }
                Ok(v)
            },
            Err(e) => Err(error_text(&e)),
        }
    }

    /// Read a 32-bit integer.
    pub fn get_u32(&mut self) -> (r: Result<u32, String>)
        ensures
            match r {
                Ok(v) => starts_with(old(self).rest(), u32_bytes(v)) && final(self).rest() == old(
                    self,
                ).rest().skip(u32_bytes(v).len() as int),
                Err(_) => forall|v: u32| !starts_with(old(self).rest(), #[trigger] u32_bytes(v)),
            },
            match r {
                Ok(v) => read_u32(old(self).rest()) == Some((v, final(self).rest())),
                Err(_) => read_u32(old(self).rest()) is None,
            },
    {
        proof {
            lemma_auto_spec_u32_to_from_le_bytes();
        }
        match deserialize_u32(self.unread()) {
            Ok(v) => {
                assert(u32_bytes(v).len() == 4);
                self.skip(4);
                proof {
                    read_u32_is(old(self).rest(), v);
                }
                Ok(v)
            },
            Err(e) => Err(error_text(&e)),
        }
    }

    /// Read a truth value.
    pub fn get_bool(&mut self) -> (r: Result<bool, String>)
        ensures
            match r {
                Ok(v) => starts_with(old(self).rest(), bool_bytes(v)) && final(self).rest() == old(
                    self,
                ).rest().skip(bool_bytes(v).len() as int),
                Err(_) => forall|v: bool| !starts_with(old(self).rest(), #[trigger] bool_bytes(v)),
            },
            match r {
                Ok(v) => read_bool(old(self).rest()) == Some((v, final(self).rest())),
                Err(_) => read_bool(old(self).rest()) is None,
            },
    {
        match deserialize_bool(self.unread()) {
            Ok(v) => {
                self.skip(1);
                proof {
                    read_bool_is(old(self).rest(), v);
                }
                Ok(v)
            },
            Err(e) => Err(error_text(&e)),
        }
    }

    /// Read a sequence of bytes.
    pub fn get_blob(&mut self) -> (r: Result<Vec<u8>, String>)
        ensures
            match r {
                Ok(v) => starts_with(old(self).rest(), blob_bytes(v@)) && final(self).rest() == old(
                    self,
                ).rest().skip(blob_bytes(v@).len() as int),
                Err(_) => forall|v: Seq<u8>|
                    !starts_with(old(self).rest(), #[trigger] blob_bytes(v)),
            },
            match r {
                Ok(v) => read_blob(old(self).rest()) == Some((v@, final(self).rest())),
                Err(_) => read_blob(old(self).rest()) is None,
            },
    {
        proof {
            lemma_auto_spec_u64_to_from_le_bytes();
        }
        let unread = self.unread();
        let left: usize = unread.len();
        match deserialize_blob(unread) {
            Ok(v) => {
                assert(blob_bytes(v@).len() == 8 + v@.len() && blob_bytes(v@).len() <= left);
                self.skip(8 + v.len());
                proof {
                    read_blob_is(old(self).rest(), v@);
                }
                Ok(v)
            },
            Err(e) => Err(error_text(&e)),
        }
    }

    /// Read a text.
    pub fn get_text(&mut self) -> (r: Result<String, String>)
        ensures
            match r {
                Ok(v) => starts_with(old(self).rest(), text_bytes(v@)) && final(self).rest() == old(
                    self,
                ).rest().skip(text_bytes(v@).len() as int),
                Err(_) => forall|v: Seq<char>|
                    !starts_with(old(self).rest(), #[trigger] text_bytes(v)),
            },
            match r {
                Ok(v) => read_text(old(self).rest()) == Some((v@, final(self).rest())),
                Err(_) => read_text(old(self).rest()) is None,
            },
    {
        proof {
            lemma_auto_spec_u64_to_from_le_bytes();
        }
        let unread = self.unread();
        let left: usize = unread.len();
        match deserialize_text(unread) {
            Ok(v) => {
                assert(text_bytes(v@).len() == 8 + encode_utf8(v@).len() && text_bytes(v@).len() <= left);
                self.skip(8 + v.as_str().len());
                proof {
                    read_text_is(old(self).rest(), v@);
                }
                Ok(v)
            },
            Err(e) => Err(error_text(&e)),
        }
    }
}

// ---------------------------------------------------------------------------
// Properties of the encoding
// ---------------------------------------------------------------------------

/// An input begins with two parts in a row if it begins with the first and its
/// remainder with the second.
pub proof fn starts_with_both(input: Seq<u8>, a: Seq<u8>, b: Seq<u8>)
    ensures
        starts_with(input, a + b) <==> starts_with(input, a) && starts_with(
            input.skip(a.len() as int),
            b,
        ),
        starts_with(input, a) ==> input.skip((a + b).len() as int) == input.skip(
            a.len() as int,
        ).skip(b.len() as int) || input.len() < (a + b).len(),
{
    let n = a.len() as int;
    let m = (a + b).len() as int;
    if starts_with(input, a + b) {
        assert(input.take(n) =~= (a + b).take(n));
        assert((a + b).take(n) =~= a);
        assert(input.skip(n).take(b.len() as int) =~= (a + b).skip(n));
        assert((a + b).skip(n) =~= b);
    }
    if starts_with(input, a) && starts_with(input.skip(n), b) {
        assert(input.take(m) =~= input.take(n) + input.skip(n).take(b.len() as int));
    }
    if m <= input.len() {
        assert(input.skip(m) =~= input.skip(n).skip(b.len() as int));
    }
}

/// What is written in front is read back from the front.
pub proof fn starts_with_self(part: Seq<u8>, tail: Seq<u8>)
    ensures
        starts_with(part + tail, part),
        (part + tail).skip(part.len() as int) == tail,
{
    assert((part + tail).take(part.len() as int) =~= part);
    assert((part + tail).skip(part.len() as int) =~= tail);
}

/// No input begins with the encodings of two 64-bit integers.
pub proof fn u64_unique(input: Seq<u8>, v: u64, w: u64)
    requires
        starts_with(input, u64_bytes(v)),
        starts_with(input, u64_bytes(w)),
    ensures
        v == w,
        u64_bytes(v).len() == 8,
{
    lemma_auto_spec_u64_to_from_le_bytes();
    assert(u64_bytes(v).len() == 8 && u64_bytes(w).len() == 8);
    assert(u64_bytes(v) == u64_bytes(w));
    assert(spec_u64_from_le_bytes(spec_u64_to_le_bytes(v)) == v);
    assert(spec_u64_from_le_bytes(spec_u64_to_le_bytes(w)) == w);
}

/// No input begins with the encodings of two 32-bit integers.
pub proof fn u32_unique(input: Seq<u8>, v: u32, w: u32)
    requires
        starts_with(input, u32_bytes(v)),
        starts_with(input, u32_bytes(w)),
    ensures
        v == w,
        u32_bytes(v).len() == 4,
{
    lemma_auto_spec_u32_to_from_le_bytes();
    assert(u32_bytes(v).len() == 4 && u32_bytes(w).len() == 4);
    assert(u32_bytes(v) == u32_bytes(w));
    assert(spec_u32_from_le_bytes(spec_u32_to_le_bytes(v)) == v);
    assert(spec_u32_from_le_bytes(spec_u32_to_le_bytes(w)) == w);
}

/// No input begins with the encodings of both truth values.
pub proof fn bool_unique(input: Seq<u8>, v: bool, w: bool)
    requires
        starts_with(input, bool_bytes(v)),
        starts_with(input, bool_bytes(w)),
    ensures
        v == w,
{
    assert(bool_bytes(v)[0] == input.take(1)[0]);
    assert(bool_bytes(w)[0] == input.take(1)[0]);
}

/// No input begins with the encodings of two sequences of bytes, as long as their
/// lengths can be encoded.
pub proof fn blob_unique(input: Seq<u8>, v: Seq<u8>, w: Seq<u8>)
    requires
        starts_with(input, blob_bytes(v)),
        starts_with(input, blob_bytes(w)),
        v.len() <= u64::MAX,
        w.len() <= u64::MAX,
    ensures
        v == w,
{
    lemma_auto_spec_u64_to_from_le_bytes();
    starts_with_both(input, u64_bytes(v.len() as u64), v);
    starts_with_both(input, u64_bytes(w.len() as u64), w);
    u64_unique(input, v.len() as u64, w.len() as u64);
}

/// No input begins with the encodings of two texts, as long as their lengths can
/// be encoded.
pub proof fn text_unique(input: Seq<u8>, v: Seq<char>, w: Seq<char>)
    requires
        starts_with(input, text_bytes(v)),
        starts_with(input, text_bytes(w)),
        encode_utf8(v).len() <= u64::MAX,
        encode_utf8(w).len() <= u64::MAX,
    ensures
        v == w,
{
    blob_unique(input, encode_utf8(v), encode_utf8(w));
    encode_utf8_decode_utf8(v);
    encode_utf8_decode_utf8(w);
}

/// Reading a 64-bit integer from the front of an input gives the one that is there.
pub proof fn read_u64_is(input: Seq<u8>, v: u64)
    requires
        starts_with(input, u64_bytes(v)),
    ensures
        read_u64(input) == Some((v, input.skip(u64_bytes(v).len() as int))),
{
    let w = choose|w: u64| starts_with(input, #[trigger] u64_bytes(w));
    assert(starts_with(input, u64_bytes(w)));
    u64_unique(input, v, w);
}

/// A 64-bit integer that was written in front is read back, and what follows it is left.
pub proof fn read_u64_back(v: u64, tail: Seq<u8>)
    ensures
        read_u64(u64_bytes(v) + tail) == Some((v, tail)),
{
    starts_with_self(u64_bytes(v), tail);
    read_u64_is(u64_bytes(v) + tail, v);
}

/// Reading a 32-bit integer from the front of an input gives the one that is there.
pub proof fn read_u32_is(input: Seq<u8>, v: u32)
    requires
        starts_with(input, u32_bytes(v)),
    ensures
        read_u32(input) == Some((v, input.skip(u32_bytes(v).len() as int))),
{
    let w = choose|w: u32| starts_with(input, #[trigger] u32_bytes(w));
    assert(starts_with(input, u32_bytes(w)));
    u32_unique(input, v, w);
}

/// A 32-bit integer that was written in front is read back, and what follows it is left.
pub proof fn read_u32_back(v: u32, tail: Seq<u8>)
    ensures
        read_u32(u32_bytes(v) + tail) == Some((v, tail)),
{
    starts_with_self(u32_bytes(v), tail);
    read_u32_is(u32_bytes(v) + tail, v);
}

/// Reading a truth value from the front of an input gives the one that is there.
pub proof fn read_bool_is(input: Seq<u8>, v: bool)
    requires
        starts_with(input, bool_bytes(v)),
    ensures
        read_bool(input) == Some((v, input.skip(bool_bytes(v).len() as int))),
{
    let w = choose|w: bool| starts_with(input, #[trigger] bool_bytes(w));
    assert(starts_with(input, bool_bytes(w)));
    bool_unique(input, v, w);
}

/// A truth value that was written in front is read back, and what follows it is left.
pub proof fn read_bool_back(v: bool, tail: Seq<u8>)
    ensures
        read_bool(bool_bytes(v) + tail) == Some((v, tail)),
{
    starts_with_self(bool_bytes(v), tail);
    read_bool_is(bool_bytes(v) + tail, v);
}

/// Reading a sequence of bytes from the front of an input gives the one that is there.
pub proof fn read_blob_is(input: Seq<u8>, v: Seq<u8>)
    requires
        starts_with(input, blob_bytes(v)),
        input.len() <= u64::MAX,
    ensures
        read_blob(input) == Some((v, input.skip(blob_bytes(v).len() as int))),
{
    let w = choose|w: Seq<u8>| starts_with(input, #[trigger] blob_bytes(w));
    assert(starts_with(input, blob_bytes(w)));
    lemma_auto_spec_u64_to_from_le_bytes();
    blob_unique(input, v, w);
}

/// A sequence of bytes that was written in front is read back, and what follows it is left.
pub proof fn read_blob_back(v: Seq<u8>, tail: Seq<u8>)
    requires
        (blob_bytes(v) + tail).len() <= u64::MAX,
    ensures
        read_blob(blob_bytes(v) + tail) == Some((v, tail)),
{
    starts_with_self(blob_bytes(v), tail);
    read_blob_is(blob_bytes(v) + tail, v);
}

/// Reading a text from the front of an input gives the one that is there.
pub proof fn read_text_is(input: Seq<u8>, v: Seq<char>)
    requires
        starts_with(input, text_bytes(v)),
        input.len() <= u64::MAX,
    ensures
        read_text(input) == Some((v, input.skip(text_bytes(v).len() as int))),
{
    let w = choose|w: Seq<char>| starts_with(input, #[trigger] text_bytes(w));
    assert(starts_with(input, text_bytes(w)));
    lemma_auto_spec_u64_to_from_le_bytes();
    text_unique(input, v, w);
}

/// A text that was written in front is read back, and what follows it is left.
pub proof fn read_text_back(v: Seq<char>, tail: Seq<u8>)
    requires
        (text_bytes(v) + tail).len() <= u64::MAX,
    ensures
        read_text(text_bytes(v) + tail) == Some((v, tail)),
{
    starts_with_self(text_bytes(v), tail);
    read_text_is(text_bytes(v) + tail, v);
}

} // verus!
