//! Little-endian readers and writers used by every message (de)serialiser.
//!
//! Integers are stored least significant byte first; strings and blobs are a
//! `u32` byte length followed by the bytes.

use vstd::prelude::*;
use vstd::utf8::*;
use vstd::slice::slice_to_vec;
use crate::error::{Result, protocol_error, protocol_error_two_numbers};

verus! {

broadcast use {vstd::utf8::encode_utf8_decode_utf8, vstd::utf8::encode_utf8_valid_utf8};

// ── Byte-order model ─────────────────────────────────────────────────────────

/// Value of the two bytes at `i`, least significant first.
pub open spec fn le_u16(b: Seq<u8>, i: int) -> int {
    b[i] + 256 * b[i + 1]
}

/// Value of the four bytes at `i`, least significant first.
pub open spec fn le_u32(b: Seq<u8>, i: int) -> int {
    b[i] + 256 * b[i + 1] + 65536 * b[i + 2] + 16777216 * b[i + 3]
}

/// Value of the eight bytes at `i`, least significant first.
pub open spec fn le_u64(b: Seq<u8>, i: int) -> int {
    le_u32(b, i) + 4294967296 * le_u32(b, i + 4)
}

/// Two's-complement reading of the four bytes at `i`.
pub open spec fn le_i32(b: Seq<u8>, i: int) -> i32 {
    (le_u32(b, i) as u32) as i32
}

/// Two's-complement reading of the eight bytes at `i`.
pub open spec fn le_i64(b: Seq<u8>, i: int) -> i64 {
    (le_u64(b, i) as u64) as i64
}

pub open spec fn u16_bytes(v: u16) -> Seq<u8> {
    seq![(v % 256) as u8, (v / 256) as u8]
}

pub open spec fn u32_bytes(v: u32) -> Seq<u8> {
    seq![
        (v % 256) as u8,
        ((v / 256) % 256) as u8,
        ((v / 65536) % 256) as u8,
        (v / 16777216) as u8,
    ]
}

pub open spec fn u64_bytes(v: u64) -> Seq<u8> {
    u32_bytes((v % 4294967296) as u32) + u32_bytes((v / 4294967296) as u32)
}

pub open spec fn i32_bytes(v: i32) -> Seq<u8> {
    u32_bytes(v as u32)
}

pub open spec fn i64_bytes(v: i64) -> Seq<u8> {
    u64_bytes(v as u64)
}

/// A length-prefixed byte field: `u32` length then the bytes.
pub open spec fn blob_bytes(b: Seq<u8>) -> Seq<u8> {
    u32_bytes(b.len() as u32) + b
}

/// A length-prefixed UTF-8 string field.
pub open spec fn str_bytes(s: Seq<char>) -> Seq<u8> {
    blob_bytes(encode_utf8(s))
}

pub proof fn lemma_u16_round_trip(v: u16, b: Seq<u8>, i: int)
    requires
        0 <= i,
        i + 2 <= b.len(),
        b.subrange(i, i + 2) == u16_bytes(v),
    ensures
        le_u16(b, i) == v,
{
    assert(b[i] == u16_bytes(v)[0]);
    assert(b[i + 1] == u16_bytes(v)[1]);
}

pub proof fn lemma_u32_round_trip(v: u32, b: Seq<u8>, i: int)
    requires
        0 <= i,
        i + 4 <= b.len(),
        b.subrange(i, i + 4) == u32_bytes(v),
    ensures
        le_u32(b, i) == v,
{
    assert(b[i] == u32_bytes(v)[0]);
    assert(b[i + 1] == u32_bytes(v)[1]);
    assert(b[i + 2] == u32_bytes(v)[2]);
    assert(b[i + 3] == u32_bytes(v)[3]);
}

pub proof fn lemma_u64_round_trip(v: u64, b: Seq<u8>, i: int)
    requires
        0 <= i,
        i + 8 <= b.len(),
        b.subrange(i, i + 8) == u64_bytes(v),
    ensures
        le_u64(b, i) == v,
{
    let lo = (v % 4294967296) as u32;
    let hi = (v / 4294967296) as u32;
    assert(b.subrange(i, i + 4) =~= u32_bytes(lo)) by {
        assert forall|k: int| 0 <= k < 4 implies b.subrange(i, i + 4)[k] == u32_bytes(lo)[k] by {
            assert(b.subrange(i, i + 8)[k] == u64_bytes(v)[k]);
        }
    }
    assert(b.subrange(i + 4, i + 8) =~= u32_bytes(hi)) by {
        assert forall|k: int| 0 <= k < 4 implies b.subrange(i + 4, i + 8)[k] == u32_bytes(hi)[k] by {
            assert(b.subrange(i, i + 8)[k + 4] == u64_bytes(v)[k + 4]);
        }
    }
    lemma_u32_round_trip(lo, b, i);
    lemma_u32_round_trip(hi, b, i + 4);
}

pub proof fn lemma_i32_round_trip(v: i32, b: Seq<u8>, i: int)
    requires
        0 <= i,
        i + 4 <= b.len(),
        b.subrange(i, i + 4) == i32_bytes(v),
    ensures
        le_i32(b, i) == v,
{
    lemma_u32_round_trip(v as u32, b, i);
    assert((v as u32) as i32 == v) by (bit_vector);
}

pub proof fn lemma_i64_round_trip(v: i64, b: Seq<u8>, i: int)
    requires
        0 <= i,
        i + 8 <= b.len(),
        b.subrange(i, i + 8) == i64_bytes(v),
    ensures
        le_i64(b, i) == v,
{
    lemma_u64_round_trip(v as u64, b, i);
    assert((v as u64) as i64 == v) by (bit_vector);
}

/// A length-prefixed field placed after `pre` reads back as its bytes,
/// whatever follows it.
pub proof fn lemma_blob_at(pre: Seq<u8>, b: Seq<u8>, rest: Seq<u8>)
    requires
        b.len() <= u32::MAX,
    ensures
        blob_at(pre + blob_bytes(b) + rest, pre.len() as int) == (
            Some(b),
            (pre.len() + 4 + b.len()) as int,
        ),
{
    let all = pre + blob_bytes(b) + rest;
    let i = pre.len() as int;
    assert(all.subrange(i, i + 4) =~= u32_bytes(b.len() as u32));
    lemma_u32_round_trip(b.len() as u32, all, i);
    assert(all.subrange(i + 4, i + 4 + b.len()) =~= b);
}

/// A length-prefixed string placed after `pre` reads back as that string,
/// whatever follows it.
pub proof fn lemma_str_at(pre: Seq<u8>, s: Seq<char>, rest: Seq<u8>)
    requires
        encode_utf8(s).len() <= u32::MAX,
    ensures
        str_at(pre + str_bytes(s) + rest, pre.len() as int) == (
            Some(s),
            (pre.len() + 4 + encode_utf8(s).len()) as int,
        ),
{
    lemma_blob_at(pre, encode_utf8(s), rest);
}

/// A fixed-width field placed after `pre` reads back as its value.
pub proof fn lemma_fixed_at(pre: Seq<u8>, rest: Seq<u8>, x16: u16, x32: u32, xi32: i32, xi64: i64)
    ensures
        le_u16(pre + u16_bytes(x16) + rest, pre.len() as int) == x16,
        le_u32(pre + u32_bytes(x32) + rest, pre.len() as int) == x32,
        le_i32(pre + i32_bytes(xi32) + rest, pre.len() as int) == xi32,
        le_i64(pre + i64_bytes(xi64) + rest, pre.len() as int) == xi64,
{
    let i = pre.len() as int;
    let a = pre + u16_bytes(x16) + rest;
    assert(a.subrange(i, i + 2) =~= u16_bytes(x16));
    lemma_u16_round_trip(x16, a, i);
    let b = pre + u32_bytes(x32) + rest;
    assert(b.subrange(i, i + 4) =~= u32_bytes(x32));
    lemma_u32_round_trip(x32, b, i);
    let c = pre + i32_bytes(xi32) + rest;
    assert(c.subrange(i, i + 4) =~= i32_bytes(xi32));
    lemma_i32_round_trip(xi32, c, i);
    let d = pre + i64_bytes(xi64) + rest;
    assert(d.subrange(i, i + 8) =~= i64_bytes(xi64));
    lemma_i64_round_trip(xi64, d, i);
}

// ── Reader ───────────────────────────────────────────────────────────────────

/// Cursor over a borrowed byte slice.
pub struct WireRead<'a> {
    data: &'a [u8],
    pos: usize,
}

impl<'a> WireRead<'a> {
    #[verifier::type_invariant]
    spec fn inv(&self) -> bool {
        self.pos <= self.data@.len()
    }

    /// The bytes being read.
    pub closed spec fn bytes(&self) -> Seq<u8> {
        self.data@
    }

    /// Index of the next unread byte.
    pub closed spec fn position(&self) -> int {
        self.pos as int
    }

    pub fn new(data: &'a [u8]) -> (r: Self)
        ensures
            r.bytes() == data@,
            r.position() == 0,
    {
        WireRead { data, pos: 0 }
    }

    /// Number of bytes not yet consumed.
    pub fn remaining(&self) -> (n: usize)
        ensures
            n == self.bytes().len() - self.position(),
    {
        proof {
            use_type_invariant(self);
        }
        self.data.len() - self.pos
    }

    /// Consume the next `len` bytes.
    pub fn read_slice(&mut self, len: usize) -> (r: Result<&'a [u8]>)
        ensures
            final(self).bytes() == old(self).bytes(),
            match r {
                Ok(s) => {
                    &&& old(self).position() + len <= old(self).bytes().len()
                    &&& s@ == old(self).bytes().subrange(
                        old(self).position(),
                        old(self).position() + len,
                    )
                    &&& final(self).position() == old(self).position() + len
                },
                Err(e) => {
                    &&& old(self).position() + len > old(self).bytes().len()
                    &&& e is Protocol
                    &&& final(self).position() == old(self).position()
                },
            },
    {
        proof {
            use_type_invariant(&*self);
        }
        if len > self.data.len() - self.pos {
            return Err(protocol_error_two_numbers("read overflow: need ", len as u64, ", have ", (self.data.len() - self.pos) as u64));
        }
        let start = self.pos;
        let s = vstd::slice::slice_subrange(self.data, start, start + len);
        self.pos = start + len;
        Ok(s)
    }

    pub fn read_u16(&mut self) -> (r: Result<u16>)
        ensures
            final(self).bytes() == old(self).bytes(),
            match r {
                Ok(v) => {
                    &&& old(self).position() + 2 <= old(self).bytes().len()
                    &&& v == le_u16(old(self).bytes(), old(self).position())
                    &&& final(self).position() == old(self).position() + 2
                },
                Err(e) => {
                    &&& old(self).position() + 2 > old(self).bytes().len()
                    &&& e is Protocol
                    &&& final(self).position() == old(self).position()
                },
            },
    {
        let s = self.read_slice(2)?;
        Ok((s[0] as u16) + (s[1] as u16) * 256)
    }

    pub fn read_u32(&mut self) -> (r: Result<u32>)
        ensures
            final(self).bytes() == old(self).bytes(),
            match r {
                Ok(v) => {
                    &&& old(self).position() + 4 <= old(self).bytes().len()
                    &&& v == le_u32(old(self).bytes(), old(self).position())
                    &&& final(self).position() == old(self).position() + 4
                },
                Err(e) => {
                    &&& old(self).position() + 4 > old(self).bytes().len()
                    &&& e is Protocol
                    &&& final(self).position() == old(self).position()
                },
            },
    {
        let s = self.read_slice(4)?;
        Ok((s[0] as u32) + (s[1] as u32) * 256 + (s[2] as u32) * 65536 + (s[3] as u32)
            * 16777216)
    }

    pub fn read_u64(&mut self) -> (r: Result<u64>)
        ensures
            final(self).bytes() == old(self).bytes(),
            match r {
                Ok(v) => {
                    &&& old(self).position() + 8 <= old(self).bytes().len()
                    &&& v == le_u64(old(self).bytes(), old(self).position())
                    &&& final(self).position() == old(self).position() + 8
                },
                Err(e) => {
                    &&& old(self).position() + 8 > old(self).bytes().len()
                    &&& e is Protocol
                    &&& final(self).position() == old(self).position()
                },
            },
    {
        let s = self.read_slice(8)?;
        let lo: u64 = (s[0] as u64) + (s[1] as u64) * 256 + (s[2] as u64) * 65536 + (s[3] as u64)
            * 16777216;
        let hi: u64 = (s[4] as u64) + (s[5] as u64) * 256 + (s[6] as u64) * 65536 + (s[7] as u64)
            * 16777216;
        Ok(lo + hi * 4294967296)
    }

    pub fn read_i32(&mut self) -> (r: Result<i32>)
        ensures
            final(self).bytes() == old(self).bytes(),
            match r {
                Ok(v) => {
                    &&& old(self).position() + 4 <= old(self).bytes().len()
                    &&& v == le_i32(old(self).bytes(), old(self).position())
                    &&& final(self).position() == old(self).position() + 4
                },
                Err(e) => {
                    &&& old(self).position() + 4 > old(self).bytes().len()
                    &&& e is Protocol
                    &&& final(self).position() == old(self).position()
                },
            },
    {
        let v = self.read_u32()?;
        Ok(v as i32)
    }

    pub fn read_i64(&mut self) -> (r: Result<i64>)
        ensures
            final(self).bytes() == old(self).bytes(),
            match r {
                Ok(v) => {
                    &&& old(self).position() + 8 <= old(self).bytes().len()
                    &&& v == le_i64(old(self).bytes(), old(self).position())
                    &&& final(self).position() == old(self).position() + 8
                },
                Err(e) => {
                    &&& old(self).position() + 8 > old(self).bytes().len()
                    &&& e is Protocol
                    &&& final(self).position() == old(self).position()
                },
            },
    {
        let v = self.read_u64()?;
        Ok(v as i64)
    }

    /// Read a length-prefixed byte blob.
    pub fn read_blob(&mut self) -> (r: Result<Vec<u8>>)
        ensures
            final(self).bytes() == old(self).bytes(),
            blob_read_matches(old(self).bytes(), old(self).position(), r, final(self).position()),
    {
        let len = self.read_u32()?;
        let s = self.read_slice(len as usize)?;
        Ok(slice_to_vec(s))
    }

    /// Read a length-prefixed UTF-8 string.
    pub fn read_str(&mut self) -> (r: Result<String>)
        ensures
            final(self).bytes() == old(self).bytes(),
            str_read_matches(old(self).bytes(), old(self).position(), r, final(self).position()),
    {
        let len = self.read_u32()?;
        let s = self.read_slice(len as usize)?;
        match string_from_utf8(slice_to_vec(s)) {
            Some(text) => Ok(text),
            None => Err(protocol_error("invalid UTF-8")),
        }
    }
}

/// Outcome of a length-prefixed read starting at `pos`: on success the field
/// bytes, and the position after it; on failure `None` and the position at
/// which the reader stopped.
pub open spec fn blob_at(b: Seq<u8>, pos: int) -> (Option<Seq<u8>>, int) {
    if pos + 4 > b.len() {
        (None, pos)
    } else if pos + 4 + le_u32(b, pos) > b.len() {
        (None, pos + 4)
    } else {
        (Some(b.subrange(pos + 4, pos + 4 + le_u32(b, pos))), pos + 4 + le_u32(b, pos))
    }
}

/// Outcome of a length-prefixed UTF-8 read starting at `pos`.
pub open spec fn str_at(b: Seq<u8>, pos: int) -> (Option<Seq<char>>, int) {
    match blob_at(b, pos).0 {
        Some(raw) => if valid_utf8(raw) {
            (Some(decode_utf8(raw)), blob_at(b, pos).1)
        } else {
            (None, blob_at(b, pos).1)
        },
        None => (None, blob_at(b, pos).1),
    }
}

pub open spec fn blob_read_matches(b: Seq<u8>, pos: int, r: Result<Vec<u8>>, end: int) -> bool {
    &&& end == blob_at(b, pos).1
    &&& match r {
        Ok(v) => blob_at(b, pos).0 == Some(v@),
        Err(e) => blob_at(b, pos).0 is None && e is Protocol,
    }
}

pub open spec fn str_read_matches(b: Seq<u8>, pos: int, r: Result<String>, end: int) -> bool {
    &&& end == str_at(b, pos).1
    &&& match r {
        Ok(s) => str_at(b, pos).0 == Some(s@),
        Err(e) => str_at(b, pos).0 is None && e is Protocol,
    }
}

/// `String::from_utf8`: the bytes as a string when they are valid UTF-8.
#[verifier::external_body]
fn string_from_utf8(bytes: Vec<u8>) -> (r: Option<String>)
    ensures
        r is Some <==> valid_utf8(bytes@),
        r matches Some(s) ==> s@ == decode_utf8(bytes@),
{
    String::from_utf8(bytes).ok()
}

// ── Writer ───────────────────────────────────────────────────────────────────

/// Growable little-endian output buffer.
pub struct WireWrite {
    buf: Vec<u8>,
}

impl View for WireWrite {
    type V = Seq<u8>;

    closed spec fn view(&self) -> Seq<u8> {
        self.buf@
    }
}

impl WireWrite {
    pub fn new() -> (w: Self)
        ensures
            w@ == Seq::<u8>::empty(),
    {
        WireWrite { buf: Vec::new() }
    }

    /// An empty writer; `cap` is a capacity hint only.
    pub fn with_capacity(cap: usize) -> (w: Self)
        ensures
            w@ == Seq::<u8>::empty(),
    {
        WireWrite { buf: Vec::with_capacity(cap) }
    }

    pub fn write_u8(&mut self, v: u8)
        ensures
            final(self)@ == old(self)@.push(v),
    {
        self.buf.push(v);
    }

    pub fn write_u16(&mut self, v: u16)
        ensures
            final(self)@ == old(self)@ + u16_bytes(v),
    {
        self.buf.push((v % 256) as u8);
        self.buf.push((v / 256) as u8);
        assert(self@ =~= old(self)@ + u16_bytes(v));
    }

    pub fn write_u32(&mut self, v: u32)
        ensures
            final(self)@ == old(self)@ + u32_bytes(v),
    {
        self.buf.push((v % 256) as u8);
        self.buf.push(((v / 256) % 256) as u8);
        self.buf.push(((v / 65536) % 256) as u8);
        self.buf.push((v / 16777216) as u8);
        assert(self@ =~= old(self)@ + u32_bytes(v));
    }

    pub fn write_u64(&mut self, v: u64)
        ensures
            final(self)@ == old(self)@ + u64_bytes(v),
    {
        let ghost start = self@;
        self.write_u32((v % 4294967296) as u32);
        self.write_u32((v / 4294967296) as u32);
        assert(self@ =~= start + u64_bytes(v));
    }

    pub fn write_i32(&mut self, v: i32)
        ensures
            final(self)@ == old(self)@ + i32_bytes(v),
    {
        self.write_u32(v as u32);
    }

    pub fn write_i64(&mut self, v: i64)
        ensures
            final(self)@ == old(self)@ + i64_bytes(v),
    {
        self.write_u64(v as u64);
    }

    /// Append `b` without a length prefix.
    pub fn write_raw(&mut self, b: &[u8])
        ensures
            final(self)@ == old(self)@ + b@,
    {
        self.buf.extend_from_slice(b);
        assert(self@ =~= old(self)@ + b@);
    }

    /// Append a `u32` length then the bytes.  The length wraps modulo 2^32
    /// for blobs of 4 GiB or more.
    pub fn write_blob(&mut self, b: &[u8])
        ensures
            final(self)@ == old(self)@ + blob_bytes(b@),
    {
        let ghost start = self@;
        self.write_u32(#[verifier::truncate] (b.len() as u32));
        self.write_raw(b);
        assert(self@ =~= start + blob_bytes(b@));
    }

    /// Append a `u32` byte length then the UTF-8 bytes of `s`.
    pub fn write_str(&mut self, s: &str)
        ensures
            final(self)@ == old(self)@ + str_bytes(s@),
    {
        self.write_blob(s.as_bytes());
    }

    pub fn finish(self) -> (v: Vec<u8>)
        ensures
            v@ == self@,
    {
        self.buf
    }

    pub fn len(&self) -> (n: usize)
        ensures
            n == self@.len(),
    {
        self.buf.len()
    }

    pub fn is_empty(&self) -> (b: bool)
        ensures
            b == (self@.len() == 0),
    {
        self.buf.len() == 0
    }
}

impl Default for WireWrite {
    fn default() -> (w: Self)
        ensures
            w@ == Seq::<u8>::empty(),
    {
        WireWrite::new()
    }
}

} // verus!
