//! MPEG program stream: start codes, PTS fields and PES packet headers.

use vstd::prelude::*;
use crate::bytes::{ByteCursor, StreamError};

verus! {

pub const PTS_FLAG: u8 = 0b0010;
pub const PTSDTS_PTS_FLAG: u8 = 0b0011;
pub const PTSDTS_DTS_FLAG: u8 = 0b0001;

/// The 33-bit time stamp held by five PTS/DTS bytes, reduced modulo 2^32
/// (the stored value is a `u32`):
/// `XXX` of byte 0, then 15 bits from bytes 1-2, then 15 bits from bytes 3-4.
pub open spec fn pts_value(b: Seq<u8>) -> int {
    (((b[0] as int / 2) % 8) * 0x4000_0000
        + (b[1] as int * 128 + b[2] as int / 2) * 0x8000
        + (b[3] as int * 128 + b[4] as int / 2)) % 0x1_0000_0000
}

/// The marker layout of a PTS/DTS field `flag XXX 1 | 8 | 7 1 | 8 | 7 1`.
pub open spec fn pts_field_ok(flag: u8, b: Seq<u8>) -> bool {
    &&& b.len() == 5
    &&& b[0] as int / 16 == flag as int
    &&& b[0] as int % 2 == 1
    &&& b[2] as int % 2 == 1
    &&& b[4] as int % 2 == 1
}

/// Decodes a PTS or DTS field whose top nibble is `flag`.
pub fn parse_pts(flag: u8, pts_bytesx: &[u8]) -> (pts: u32)
    requires
        pts_field_ok(flag, pts_bytesx@),
    ensures
        pts as int == pts_value(pts_bytesx@),
{
    let b0 = pts_bytesx[0] as u32;
    let b1 = pts_bytesx[1] as u32;
    let b2 = pts_bytesx[2] as u32;
    let b3 = pts_bytesx[3] as u32;
    let b4 = pts_bytesx[4] as u32;
    let p0 = (b0 & 0b1110) >> 1;
    let lo2 = b2 & 0b11111110;
    let lo4 = b4 & 0b11111110;
    assert(lo2 <= 255 && lo4 <= 255) by (bit_vector)
        requires lo2 == b2 & 0b11111110, lo4 == b4 & 0b11111110, b2 < 256, b4 < 256;
    let s1 = b1 * 256 + lo2;
    let s2 = b3 * 256 + lo4;
    let p1 = s1 >> 1;
    let p2 = s2 >> 1;
    assert(p0 == (b0 / 2) % 8) by (bit_vector)
        requires p0 == (b0 & 0b1110) >> 1, b0 < 256;
    assert(p1 == b1 * 128 + b2 / 2 && p1 < 0x8000) by (bit_vector)
        requires p1 == s1 >> 1, s1 == b1 * 256 + lo2, lo2 == b2 & 0b11111110, b1 < 256, b2 < 256;
    assert(p2 == b3 * 128 + b4 / 2 && p2 < 0x8000) by (bit_vector)
        requires p2 == s2 >> 1, s2 == b3 * 256 + lo4, lo4 == b4 & 0b11111110, b3 < 256, b4 < 256;
    let full: u64 = (p0 as u64) * 0x4000_0000 + (p1 as u64) * 0x8000 + (p2 as u64);
    (full % 0x1_0000_0000) as u32
}

/// The next four bytes, when there are four, begin with `00 00 01`.
pub open spec fn start_code_ok(a: ByteCursor) -> bool {
    a.remaining() >= 4 ==> a.ahead(4)[0] == 0 && a.ahead(4)[1] == 0 && a.ahead(4)[2] == 1
}

/// Reads a start code `00 00 01 xx` and returns `xx`; fewer than four
/// bytes left is `UnexpectedEof`.
pub fn start_code(a: &mut ByteCursor) -> (r: Result<u8, StreamError>)
    requires
        start_code_ok(*old(a)),
    ensures
        final(a).data == old(a).data,
        old(a).remaining() < 4 ==> r == Err::<u8, StreamError>(StreamError::UnexpectedEof),
        old(a).remaining() >= 4 ==> r == Ok::<u8, StreamError>(old(a).ahead(4)[3]) && final(a).pos == old(a).pos + 4,
{
    read_start_code(a)
}

/// Reads a start code as `start_code` does, with a wrong prefix `Malformed`.
pub(crate) fn read_start_code(a: &mut ByteCursor) -> (r: Result<u8, StreamError>)
    ensures
        final(a).data == old(a).data,
        old(a).remaining() < 4 ==> r == Err::<u8, StreamError>(StreamError::UnexpectedEof),
        old(a).remaining() >= 4 ==> {
            let s = old(a).ahead(4);
            &&& final(a).pos == old(a).pos + 4
            &&& (s[0] == 0 && s[1] == 0 && s[2] == 1) ==> r == Ok::<u8, StreamError>(s[3])
            &&& !(s[0] == 0 && s[1] == 0 && s[2] == 1) ==> r == Err::<u8, StreamError>(StreamError::Malformed)
        },
{
    let buf = a.read_bytes(4)?;
    if buf[0] == 0 && buf[1] == 0 && buf[2] == 1 {
        Ok(buf[3])
    } else {
        Err(StreamError::Malformed)
    }
}

} // verus!

verus! {

/// A PES packet: its time stamps, whether it carries a CRC, and its payload.
pub struct Pes {
    pub pts: Option<u32>,
    pub dts: Option<u32>,
    pub inner: Vec<u8>,
    pub has_pes_crc: bool,
}

/// The PTS/DTS indicator of the second header byte.
pub open spec fn pts_dts_ind(rest: Seq<u8>) -> int {
    rest[1] as int / 64
}

/// How a PES header read from `rest` (the bytes after the packet length) with
/// packet length `sz` ends: `None` when it succeeds.
pub open spec fn pes_failure(rest: Seq<u8>, sz: int) -> Option<StreamError> {
    if rest.len() < 3 {
        Some(StreamError::UnexpectedEof)
    } else if rest[2] > 64 {
        Some(StreamError::Malformed)
    } else if rest.len() < 3 + rest[2] {
        Some(StreamError::UnexpectedEof)
    } else if pts_dts_ind(rest) == 1 {
        Some(StreamError::Malformed)
    } else if pts_dts_ind(rest) == 2 && !(rest[2] >= 5 && pts_field_ok(PTS_FLAG, rest.subrange(3, 8))) {
        Some(StreamError::Malformed)
    } else if pts_dts_ind(rest) == 3 && !(rest[2] >= 10 && pts_field_ok(PTSDTS_PTS_FLAG, rest.subrange(3, 8))
        && pts_field_ok(PTSDTS_DTS_FLAG, rest.subrange(8, 13))) {
        Some(StreamError::Malformed)
    } else if sz < 3 + rest[2] {
        Some(StreamError::Malformed)
    } else if rest.len() < sz {
        Some(StreamError::UnexpectedEof)
    } else {
        None
    }
}

/// The PTS a PES header carries.
pub open spec fn pes_pts(rest: Seq<u8>) -> Option<u32> {
    if pts_dts_ind(rest) >= 2 {
        Some(pts_value(rest.subrange(3, 8)) as u32)
    } else {
        None
    }
}

/// The DTS a PES header carries.
pub open spec fn pes_dts(rest: Seq<u8>) -> Option<u32> {
    if pts_dts_ind(rest) == 3 {
        Some(pts_value(rest.subrange(8, 13)) as u32)
    } else {
        None
    }
}

/// Reads a PES packet whose length field `sz` has just been read: the three
/// header bytes, the optional header fields, then the payload up to `sz`.
/// The header must be well formed: at most 64 bytes of header data, a PTS/DTS
/// indicator other than `01`, room and markers for the time stamps it
/// announces, and a packet length that covers the header.
pub fn pes(rdd: &mut ByteCursor, sz: usize) -> (r: Result<Pes, StreamError>)
    requires
        old(rdd).pos <= old(rdd).data@.len() ==> pes_failure(
            old(rdd).data@.subrange(old(rdd).pos as int, old(rdd).data@.len() as int),
            sz as int,
        ) != Some(StreamError::Malformed),
    ensures
        final(rdd).data == old(rdd).data,
        ({
            let rest = old(rdd).data@.subrange(old(rdd).pos as int, old(rdd).data@.len() as int);
            &&& old(rdd).pos > old(rdd).data@.len() ==> r == Err::<Pes, StreamError>(StreamError::UnexpectedEof)
            &&& old(rdd).pos <= old(rdd).data@.len() ==> match pes_failure(rest, sz as int) {
                Some(e) => r is Err && r->Err_0 == e,
                None => r is Ok && r->Ok_0.pts == pes_pts(rest) && r->Ok_0.dts == pes_dts(rest)
                    && r->Ok_0.has_pes_crc == (rest[1] as int / 2 % 2 == 1)
                    && r->Ok_0.inner@ == rest.subrange(3 + rest[2], sz as int)
                    && final(rdd).pos == old(rdd).pos + sz,
            }
        }),
{
    read_pes(rdd, sz)
}

/// Reads a PES packet as `pes` does, with a malformed header `Malformed`.
pub(crate) fn read_pes(rdd: &mut ByteCursor, sz: usize) -> (r: Result<Pes, StreamError>)
    ensures
        final(rdd).data == old(rdd).data,
        ({
            let rest = old(rdd).data@.subrange(old(rdd).pos as int, old(rdd).data@.len() as int);
            &&& old(rdd).pos > old(rdd).data@.len() ==> r == Err::<Pes, StreamError>(StreamError::UnexpectedEof)
            &&& old(rdd).pos <= old(rdd).data@.len() ==> match pes_failure(rest, sz as int) {
                Some(e) => r is Err && r->Err_0 == e,
                None => r is Ok && r->Ok_0.pts == pes_pts(rest) && r->Ok_0.dts == pes_dts(rest)
                    && r->Ok_0.has_pes_crc == (rest[1] as int / 2 % 2 == 1)
                    && r->Ok_0.inner@ == rest.subrange(3 + rest[2], sz as int)
                    && final(rdd).pos == old(rdd).pos + sz,
            }
        }),
{
    let ghost rest = rdd.data@.subrange(rdd.pos as int, rdd.data@.len() as int);
    let ghost start = rdd.pos;
    let _a = rdd.read_u8()?;
    let b = rdd.read_u8()?;
    let c = rdd.read_u8()?;
    if c > 64 {
        return Err(StreamError::Malformed);
    }
    let buf = rdd.read_bytes(c as usize)?;
    assert(buf@ =~= rest.subrange(3, 3 + c));
    let pts_dts_ind = b >> 6;
    assert(pts_dts_ind as int == b as int / 64) by (bit_vector)
        requires pts_dts_ind == b >> 6;
    let has_pes_crc = (b & 0b00000010) != 0;
    assert(((b & 0b00000010) != 0) == (b as int / 2 % 2 == 1)) by (bit_vector);
    let mut pts = None;
    let mut dts = None;
    if pts_dts_ind == 0b00 {
    } else if pts_dts_ind == 0b10 {
        if c < 5 {
            return Err(StreamError::Malformed);
        }
        let f = vstd::slice::slice_subrange(buf, 0, 5);
        assert(f@ =~= rest.subrange(3, 8));
        if !pts_field_check(PTS_FLAG, f) {
            return Err(StreamError::Malformed);
        }
        pts = Some(parse_pts(PTS_FLAG, f));
    } else if pts_dts_ind == 0b11 {
        if c < 10 {
            return Err(StreamError::Malformed);
        }
        let f = vstd::slice::slice_subrange(buf, 0, 5);
        let g = vstd::slice::slice_subrange(buf, 5, 10);
        assert(f@ =~= rest.subrange(3, 8));
        assert(g@ =~= rest.subrange(8, 13));
        if !pts_field_check(PTSDTS_PTS_FLAG, f) || !pts_field_check(PTSDTS_DTS_FLAG, g) {
            return Err(StreamError::Malformed);
        }
        pts = Some(parse_pts(PTSDTS_PTS_FLAG, f));
        dts = Some(parse_pts(PTSDTS_DTS_FLAG, g));
    } else {
        return Err(StreamError::Malformed);
    }
    if sz < 3 + c as usize {
        return Err(StreamError::Malformed);
    }
    let payload = rdd.read_bytes(sz - 3 - c as usize)?;
    let inner = vstd::slice::slice_to_vec(payload);
    assert(inner@ =~= rest.subrange(3 + c, sz as int));
    Ok(Pes { dts, pts, inner, has_pes_crc })
}

/// Whether five bytes have the marker layout of a PTS/DTS field with `flag`.
pub fn pts_field_check(flag: u8, b: &[u8]) -> (ok: bool)
    requires
        b@.len() == 5,
    ensures
        ok == pts_field_ok(flag, b@),
{
    let b0 = b[0];
    let b2 = b[2];
    let b4 = b[4];
    assert(((b0 & 0b11110000) >> 4) as int == b0 as int / 16) by (bit_vector);
    assert(((b0 & 1) == 1) == (b0 as int % 2 == 1)) by (bit_vector);
    assert(((b2 & 1) == 1) == (b2 as int % 2 == 1)) by (bit_vector);
    assert(((b4 & 1) == 1) == (b4 as int % 2 == 1)) by (bit_vector);
    (b0 & 0b11110000) >> 4 == flag && (b0 & 1) == 1 && (b2 & 1) == 1 && (b4 & 1) == 1
}

/// Reading a fixed number of bytes into an owned buffer.
pub trait ReadToVec {
    /// The bytes that the reader has not handed out yet.
    spec fn unread(&self) -> Seq<u8>;

    /// Reads exactly `b` bytes into a new buffer.
    fn read_to_cursor(&mut self, b: usize) -> (r: Result<Vec<u8>, StreamError>)
        ensures
            old(self).unread().len() >= b ==> r is Ok && r->Ok_0@ == old(self).unread().subrange(0, b as int)
                && final(self).unread() == old(self).unread().subrange(b as int, old(self).unread().len() as int),
            old(self).unread().len() < b ==> r == Err::<Vec<u8>, StreamError>(StreamError::UnexpectedEof),
    ;
}

impl<'a> ReadToVec for ByteCursor<'a> {
    open spec fn unread(&self) -> Seq<u8> {
        if self.pos <= self.data@.len() {
            self.data@.subrange(self.pos as int, self.data@.len() as int)
        } else {
            Seq::empty()
        }
    }

    fn read_to_cursor(&mut self, b: usize) -> (r: Result<Vec<u8>, StreamError>) {
        if b == 0 {
            assert(old(self).unread().subrange(0, 0) =~= Seq::<u8>::empty());
            assert(old(self).unread().subrange(0, old(self).unread().len() as int) =~= old(self).unread());
            return Ok(Vec::new());
        }
        let s = self.read_bytes(b)?;
        proof {
            assert(self.unread() =~= old(self).unread().subrange(b as int, old(self).unread().len() as int));
        }
        Ok(vstd::slice::slice_to_vec(s))
    }
}

} // verus!
