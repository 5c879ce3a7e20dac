//! A cursor over a borrowed byte buffer.
//!
//! `BytesReader` hands out leading slices of its buffer and advances
//! past them; the wire-format decoders are built on it.

use vstd::prelude::*;
use vstd::slice::slice_subrange;

verus! {

/// Why decoding bytes from the wire failed.
#[derive(Debug, Clone, Copy, PartialEq, Eq)]
pub enum WireError {
    /// The buffer holds fewer bytes than the format calls for.
    UnexpectedEof,
    /// A length field is negative where the format forbids it.
    NegativeLength,
    /// A text field is not valid UTF-8.
    InvalidUtf8,
    /// A frame or field does not follow the expected layout.
    Unsupported,
}

/// A reader over `buffer`, positioned at its start.
pub struct BytesReader<'a>(&'a [u8]);

impl<'a> View for BytesReader<'a> {
    type V = Seq<u8>;

    closed spec fn view(&self) -> Seq<u8> {
        self.0@
    }
}

impl<'a> BytesReader<'a> {
    /// A reader over all of `buffer`.
    pub fn new(buffer: &'a [u8]) -> (r: Self)
        ensures
            r@ == buffer@,
    {
        BytesReader(buffer)
    }

    /// Takes the next `bytes_num` bytes and advances past them; fails
    /// without advancing when fewer remain.
    pub fn read_bytes(&mut self, bytes_num: usize) -> (r: Result<&'a [u8], WireError>)
        ensures
            match r {
                Ok(b) => bytes_num <= old(self)@.len() && b@ == old(self)@.take(bytes_num as int)
                    && final(self)@ == old(self)@.skip(bytes_num as int),
                Err(e) => old(self)@.len() < bytes_num && e == WireError::UnexpectedEof
                    && final(self)@ == old(self)@,
            },
    {
        let n = self.0.len();
        if n < bytes_num {
            Err(WireError::UnexpectedEof)
        } else {
            let req = slice_subrange(self.0, 0, bytes_num);
            self.0 = slice_subrange(self.0, bytes_num, n);
            proof {
                assert(req@ =~= old(self)@.take(bytes_num as int));
                assert(self.0@ =~= old(self)@.skip(bytes_num as int));
            }
            Ok(req)
        }
    }

    /// The bytes after the next `bytes_num`, without advancing.
    pub fn advance_bytes(&self, bytes_num: usize) -> (r: Result<&'a [u8], WireError>)
        ensures
            match r {
                Ok(b) => bytes_num <= self@.len() && b@ == self@.skip(bytes_num as int),
                Err(e) => self@.len() < bytes_num && e == WireError::UnexpectedEof,
            },
    {
        let n = self.0.len();
        if n < bytes_num {
            Err(WireError::UnexpectedEof)
        } else {
            let rest = slice_subrange(self.0, bytes_num, n);
            proof {
                assert(rest@ =~= self@.skip(bytes_num as int));
            }
            Ok(rest)
        }
    }

    /// A fresh reader positioned `bytes_num` bytes further on.
    pub fn advance_bytes_reader(&self, bytes_num: usize) -> (r: Result<BytesReader<'a>, WireError>)
        ensures
            match r {
                Ok(b) => bytes_num <= self@.len() && b@ == self@.skip(bytes_num as int),
                Err(e) => self@.len() < bytes_num && e == WireError::UnexpectedEof,
            },
    {
        match self.advance_bytes(bytes_num) {
            Ok(rest) => Ok(BytesReader::new(rest)),
            Err(e) => Err(e),
        }
    }

    /// True when no bytes remain.
    pub fn is_empty(&self) -> (r: bool)
        ensures
            r == (self@.len() == 0),
    {
        self.0.is_empty()
    }

    /// All remaining bytes, without advancing.
    pub fn get_remaining_bytes(&self) -> (r: &'a [u8])
        ensures
            r@ == self@,
    {
        self.0
    }

    /// Copies at most `buf`'s length of remaining bytes into the front
    /// of `buf` and advances past them, returning how many were copied.
    pub fn read(&mut self, buf: &mut Vec<u8>) -> (r: usize)
        ensures
            r == vstd::math::min(old(buf)@.len() as int, old(self)@.len() as int),
            final(self)@ == old(self)@.skip(r as int),
            final(buf)@.len() == old(buf)@.len(),
            final(buf)@.take(r as int) == old(self)@.take(r as int),
            final(buf)@.skip(r as int) == old(buf)@.skip(r as int),
    {
        let amount = if buf.len() < self.0.len() {
            buf.len()
        } else {
            self.0.len()
        };
        let mut k: usize = 0;
        while k < amount
            invariant
                k <= amount,
                amount <= buf@.len(),
                amount <= self@.len(),
                self@ == old(self)@,
                buf@.len() == old(buf)@.len(),
                forall|j: int| 0 <= j < k ==> buf@[j] == self@[j],
                forall|j: int| k <= j < buf@.len() ==> buf@[j] == old(buf)@[j],
            decreases amount - k,
        {
            let b = self.0[k];
            buf.set(k, b);
            k += 1;
        }
        let n = self.0.len();
        self.0 = slice_subrange(self.0, amount, n);
        proof {
            assert(self.0@ =~= old(self)@.skip(amount as int));
            assert(buf@.take(amount as int) =~= old(self)@.take(amount as int));
            assert(buf@.skip(amount as int) =~= old(buf)@.skip(amount as int));
        }
        amount
    }
}

/// The big-endian value of two bytes.
pub open spec fn be_u16(s: Seq<u8>) -> int {
    s[0] * 0x100 + s[1]
}

/// The big-endian value of four bytes.
pub open spec fn be_u32(s: Seq<u8>) -> int {
    s[0] * 0x100_0000 + s[1] * 0x1_0000 + s[2] * 0x100 + s[3]
}

/// The big-endian value of eight bytes.
pub open spec fn be_u64(s: Seq<u8>) -> int {
    be_u32(s) * 0x1_0000_0000 + be_u32(s.skip(4))
}

/// Reads two big-endian bytes from a slice's start.
pub fn slice_be_u16(b: &[u8]) -> (r: u16)
    requires
        b@.len() >= 2,
    ensures
        r == be_u16(b@),
{
    (b[0] as u16) * 0x100 + (b[1] as u16)
}

/// Reads four big-endian bytes from a slice's start.
pub fn slice_be_u32(b: &[u8]) -> (r: u32)
    requires
        b@.len() >= 4,
    ensures
        r == be_u32(b@),
{
    (b[0] as u32) * 0x100_0000 + (b[1] as u32) * 0x1_0000 + (b[2] as u32) * 0x100 + (b[3] as u32)
}

/// Reads eight big-endian bytes from a slice's start.
pub fn slice_be_u64(b: &[u8]) -> (r: u64)
    requires
        b@.len() >= 8,
    ensures
        r == be_u64(b@),
{
    let hi = slice_be_u32(b);
    let lo_slice = slice_subrange(b, 4, b.len());
    let lo = slice_be_u32(lo_slice);
    proof {
        assert(lo_slice@ =~= b@.skip(4));
    }
    (hi as u64) * 0x1_0000_0000 + (lo as u64)
}

} // verus!
