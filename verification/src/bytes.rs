//! A byte cursor over an in-memory buffer, with big-endian reads.

use vstd::prelude::*;
use vstd::slice::slice_subrange;
use byteorder::ByteOrder;

verus! {

/// Why reading a stream stopped.
#[derive(Debug, Clone, Copy, PartialEq, Eq)]
pub enum StreamError {
    /// The bytes ran out before a read was complete.
    UnexpectedEof,
    /// The bytes do not follow the layout that the parser accepts.
    Malformed,
}

/// The big-endian value of two bytes.
pub open spec fn be16(a: u8, b: u8) -> int {
    a as int * 256 + b as int
}

/// The big-endian value of four bytes.
pub open spec fn be32(a: u8, b: u8, c: u8, d: u8) -> int {
    ((a as int * 256 + b as int) * 256 + c as int) * 256 + d as int
}

/// `byteorder::BigEndian::read_u16`: the first two bytes of `buf`, most
/// significant first. It panics on a shorter slice, which `requires` rules out.
#[verifier::external_body]
pub(crate) fn byteorder_read_u16(buf: &[u8]) -> (r: u16)
    requires
        buf@.len() >= 2,
    ensures
        r as int == be16(buf@[0], buf@[1]),
{
    byteorder::BigEndian::read_u16(buf)
}

/// `byteorder::BigEndian::read_u32`: the first four bytes of `buf`, most
/// significant first. It panics on a shorter slice, which `requires` rules out.
#[verifier::external_body]
pub(crate) fn byteorder_read_u32(buf: &[u8]) -> (r: u32)
    requires
        buf@.len() >= 4,
    ensures
        r as int == be32(buf@[0], buf@[1], buf@[2], buf@[3]),
{
    byteorder::BigEndian::read_u32(buf)
}

/// A read position in a byte buffer, as `std::io::Cursor` over a slice.
pub struct ByteCursor<'a> {
    pub data: &'a [u8],
    pub pos: usize,
}

impl<'a> ByteCursor<'a> {
    /// Bytes left after the position (negative when it stands past the end).
    pub open spec fn remaining(&self) -> int {
        self.data@.len() - self.pos
    }

    /// The `n` bytes that follow the position.
    pub open spec fn ahead(&self, n: int) -> Seq<u8> {
        self.data@.subrange(self.pos as int, self.pos + n)
    }

    pub fn new(data: &'a [u8]) -> (c: ByteCursor<'a>)
        ensures
            c.data == data,
            c.pos == 0,
    {
        ByteCursor { data, pos: 0 }
    }

    /// The current position.
    pub fn position(&self) -> (r: usize)
        ensures
            r == self.pos,
    {
        self.pos
    }

    /// Moves the position; a position past the end is allowed, as for a cursor.
    pub fn set_position(&mut self, pos: usize)
        ensures
            final(self).data == old(self).data,
            final(self).pos == pos,
    {
        self.pos = pos;
    }

    /// Reads exactly `n` bytes; fails, keeping the position, when fewer remain.
    pub fn read_bytes(&mut self, n: usize) -> (r: Result<&'a [u8], StreamError>)
        ensures
            final(self).data == old(self).data,
            old(self).remaining() >= n ==> r is Ok && r->Ok_0@ == old(self).ahead(n as int)
                && final(self).pos == old(self).pos + n,
            old(self).remaining() < n ==> r == Err::<&'a [u8], StreamError>(StreamError::UnexpectedEof)
                && final(self).pos == old(self).pos,
    {
        if self.pos <= self.data.len() && self.data.len() - self.pos >= n {
            let s = slice_subrange(self.data, self.pos, self.pos + n);
            self.pos = self.pos + n;
            Ok(s)
        } else {
            Err(StreamError::UnexpectedEof)
        }
    }

    /// Reads one byte.
    pub fn read_u8(&mut self) -> (r: Result<u8, StreamError>)
        ensures
            final(self).data == old(self).data,
            old(self).remaining() >= 1 ==> r == Ok::<u8, StreamError>(old(self).data@[old(self).pos as int])
                && final(self).pos == old(self).pos + 1,
            old(self).remaining() < 1 ==> r == Err::<u8, StreamError>(StreamError::UnexpectedEof)
                && final(self).pos == old(self).pos,
    {
        if self.pos < self.data.len() {
            let b = self.data[self.pos];
            self.pos = self.pos + 1;
            Ok(b)
        } else {
            Err(StreamError::UnexpectedEof)
        }
    }

    /// Reads a big-endian `u16`.
    pub fn read_be_u16(&mut self) -> (r: Result<u16, StreamError>)
        ensures
            final(self).data == old(self).data,
            old(self).remaining() >= 2 ==> r is Ok
                && r->Ok_0 as int == be16(old(self).data@[old(self).pos as int], old(self).data@[old(self).pos + 1])
                && final(self).pos == old(self).pos + 2,
            old(self).remaining() < 2 ==> r == Err::<u16, StreamError>(StreamError::UnexpectedEof)
                && final(self).pos == old(self).pos,
    {
        match self.read_bytes(2) {
            Ok(s) => Ok(byteorder_read_u16(s)),
            Err(e) => Err(e),
        }
    }

    /// Reads a big-endian `u32`.
    pub fn read_be_u32(&mut self) -> (r: Result<u32, StreamError>)
        ensures
            final(self).data == old(self).data,
            old(self).remaining() >= 4 ==> r is Ok
                && r->Ok_0 as int == be32(
                    old(self).data@[old(self).pos as int],
                    old(self).data@[old(self).pos + 1],
                    old(self).data@[old(self).pos + 2],
                    old(self).data@[old(self).pos + 3],
                )
                && final(self).pos == old(self).pos + 4,
            old(self).remaining() < 4 ==> r == Err::<u32, StreamError>(StreamError::UnexpectedEof)
                && final(self).pos == old(self).pos,
    {
        match self.read_bytes(4) {
            Ok(s) => Ok(byteorder_read_u32(s)),
            Err(e) => Err(e),
        }
    }
}

} // verus!
