//! MPEG-2 video headers: group of pictures, picture, sequence and extension.

use vstd::prelude::*;
use crate::bytes::{ByteCursor, StreamError};

verus! {

/// The flags of a group-of-pictures header.
#[derive(Debug, Clone, Copy, PartialEq, Eq)]
pub struct Gop {
    pub closed: bool,
    pub broken: bool,
}

/// Reads a group-of-pictures header (the four bytes after its start code).
pub fn group_of_pictures_header(a: &mut ByteCursor) -> (r: Result<Gop, StreamError>)
    ensures
        final(a).data == old(a).data,
        r == spec_group_of_pictures_header(old(a).data@, old(a).pos as int),
        r is Ok ==> final(a).pos == old(a).pos + 4,
{
    let b = a.read_bytes(4)?;
    let b3 = b[3];
    assert(((b3 & 0b01000000) != 0) == (b3 as int / 64 % 2 == 1)) by (bit_vector);
    assert(((b3 & 0b00100000) != 0) == (b3 as int / 32 % 2 == 1)) by (bit_vector);
    Ok(Gop { closed: (b3 & 0b01000000) != 0, broken: (b3 & 0b00100000) != 0 })
}

/// The fields of a picture header.
#[derive(Debug, Clone, Copy, PartialEq, Eq)]
pub struct Picture {
    pub temporal_reference: u16,
    pub picture_type: u8,
}

/// Reads a picture header: the 10-bit temporal reference and the 3-bit
/// picture coding type.
pub fn picture_header(a: &mut ByteCursor) -> (r: Result<Picture, StreamError>)
    ensures
        final(a).data == old(a).data,
        r == spec_picture_header(old(a).data@, old(a).pos as int),
        r is Ok ==> final(a).pos == old(a).pos + 2,
{
    let b = a.read_bytes(2)?;
    let b0 = b[0];
    let b1 = b[1];
    let hi = (b0 as u16) << 2;
    assert(hi as int == b0 as int * 4) by (bit_vector)
        requires hi == (b0 as u16) << 2;
    let lo = ((b1 & 0b11000000) as u16) >> 6;
    assert(lo as int == b1 as int / 64) by (bit_vector)
        requires lo == ((b1 & 0b11000000) as u16) >> 6;
    let pt = (b1 >> 3) & 0b111;
    assert(pt as int == b1 as int / 8 % 8) by (bit_vector)
        requires pt == (b1 >> 3) & 0b111;
    Ok(Picture { temporal_reference: hi + lo, picture_type: pt })
}

/// Frame size, display aspect ratio and frame rate of a sequence.
#[derive(Debug, Clone, Copy, PartialEq, Eq)]
pub struct SequenceHeader {
    pub width: u16,
    pub height: u16,
    pub ar_num: u16,
    pub ar_den: u16,
    pub fr_num: u16,
    pub fr_den: u16,
}

impl SequenceHeader {
    /// All fields zero.
    pub fn zeroed() -> (s: SequenceHeader)
        ensures
            s == (SequenceHeader { width: 0, height: 0, ar_num: 0, ar_den: 0, fr_num: 0, fr_den: 0 }),
    {
        SequenceHeader { width: 0, height: 0, ar_num: 0, ar_den: 0, fr_num: 0, fr_den: 0 }
    }
}

impl Default for SequenceHeader {
    fn default() -> (s: SequenceHeader)
        ensures
            s == (SequenceHeader { width: 0, height: 0, ar_num: 0, ar_den: 0, fr_num: 0, fr_den: 0 }),
    {
        SequenceHeader::zeroed()
    }
}

/// The display aspect ratio that an `aspect_ratio_information` code stands for.
pub open spec fn aspect_ratio(code: int) -> Option<(u16, u16)> {
    if code == 1 {
        Some((1u16, 1u16))
    } else if code == 2 {
        Some((3u16, 4u16))
    } else if code == 3 {
        Some((9u16, 16u16))
    } else if code == 4 {
        Some((100u16, 212u16))
    } else {
        None
    }
}

/// The frame rate that a `frame_rate_code` stands for.
pub open spec fn frame_rate(code: int) -> Option<(u16, u16)> {
    if code == 1 {
        Some((24000u16, 1001u16))
    } else if code == 2 {
        Some((24u16, 1u16))
    } else if code == 3 {
        Some((25u16, 1u16))
    } else if code == 4 {
        Some((30000u16, 1001u16))
    } else if code == 5 {
        Some((30u16, 1u16))
    } else if code == 6 {
        Some((50u16, 1u16))
    } else if code == 7 {
        Some((60000u16, 1001u16))
    } else if code == 8 {
        Some((60u16, 1u16))
    } else {
        None
    }
}

/// The result of reading a group-of-pictures header at `p` in `d`.
pub open spec fn spec_group_of_pictures_header(d: Seq<u8>, p: int) -> Result<Gop, StreamError> {
    if d.len() - p < 4 {
        Err(StreamError::UnexpectedEof)
    } else {
        Ok(Gop { closed: d[p + 3] as int / 64 % 2 == 1, broken: d[p + 3] as int / 32 % 2 == 1 })
    }
}

/// The result of reading a picture header at `p` in `d`.
pub open spec fn spec_picture_header(d: Seq<u8>, p: int) -> Result<Picture, StreamError> {
    if d.len() - p < 2 {
        Err(StreamError::UnexpectedEof)
    } else {
        Ok(Picture {
            temporal_reference: (d[p] as int * 4 + d[p + 1] as int / 64) as u16,
            picture_type: (d[p + 1] as int / 8 % 8) as u8,
        })
    }
}

/// The result of reading a sequence header at `p` in `d`.
pub open spec fn spec_sequence_header(d: Seq<u8>, p: int) -> Result<SequenceHeader, StreamError> {
    if d.len() - p < SEQUENCE_HEADER_LEN {
        Err(StreamError::UnexpectedEof)
    } else {
        let ar = aspect_ratio(d[p + 3] as int / 16);
        let fr = frame_rate(d[p + 3] as int % 16);
        if ar is None || fr is None {
            Err(StreamError::Malformed)
        } else {
            Ok(SequenceHeader {
                width: (d[p] as int * 16 + d[p + 1] as int / 16) as u16,
                height: (d[p + 2] as int + (d[p + 1] as int % 16) * 256) as u16,
                ar_num: ar.unwrap().0,
                ar_den: ar.unwrap().1,
                fr_num: fr.unwrap().0,
                fr_den: fr.unwrap().1,
            })
        }
    }
}

/// Bytes a sequence header occupies after its start code, quantiser
/// matrices included.
pub const SEQUENCE_HEADER_LEN: usize = 136;

/// Whether the aspect ratio and frame rate codes at `p` (when the whole
/// header is there) are ones of the DVD set.
pub open spec fn sequence_codes_ok(d: Seq<u8>, p: int) -> bool {
    d.len() - p >= SEQUENCE_HEADER_LEN ==> aspect_ratio(d[p + 3] as int / 16) is Some
        && frame_rate(d[p + 3] as int % 16) is Some
}

/// Reads a sequence header. Only the first four bytes are decoded, but all
/// `SEQUENCE_HEADER_LEN` must be there; the aspect ratio and frame rate
/// codes must be ones of the DVD set.
pub fn sequence_header(a: &mut ByteCursor) -> (r: Result<SequenceHeader, StreamError>)
    requires
        sequence_codes_ok(old(a).data@, old(a).pos as int),
    ensures
        final(a).data == old(a).data,
        r == spec_sequence_header(old(a).data@, old(a).pos as int),
        r is Ok ==> final(a).pos == old(a).pos + SEQUENCE_HEADER_LEN,
{
    read_sequence_header(a)
}

/// Reads a sequence header as `sequence_header` does, with codes outside
/// the DVD set `Malformed`.
pub(crate) fn read_sequence_header(a: &mut ByteCursor) -> (r: Result<SequenceHeader, StreamError>)
    ensures
        final(a).data == old(a).data,
        r == spec_sequence_header(old(a).data@, old(a).pos as int),
        r is Ok ==> final(a).pos == old(a).pos + SEQUENCE_HEADER_LEN,
{
    let data = a.read_bytes(SEQUENCE_HEADER_LEN)?;
    let d0 = data[0];
    let d1 = data[1];
    let d2 = data[2];
    let d3 = data[3];
    let ar = (d3 & 0b11110000) >> 4;
    let fr = d3 & 0b00001111;
    assert(ar as int == d3 as int / 16 && fr as int == d3 as int % 16) by (bit_vector)
        requires ar == (d3 & 0b11110000) >> 4, fr == d3 & 0b00001111;
    let (ar_num, ar_den): (u16, u16) = if ar == 1 {
        (1, 1)
    } else if ar == 2 {
        (3, 4)
    } else if ar == 3 {
        (9, 16)
    } else if ar == 4 {
        (100, 212)
    } else {
        return Err(StreamError::Malformed);
    };
    let (fr_num, fr_den): (u16, u16) = if fr == 1 {
        (24000, 1001)
    } else if fr == 2 {
        (24, 1)
    } else if fr == 3 {
        (25, 1)
    } else if fr == 4 {
        (30000, 1001)
    } else if fr == 5 {
        (30, 1)
    } else if fr == 6 {
        (50, 1)
    } else if fr == 7 {
        (60000, 1001)
    } else if fr == 8 {
        (60, 1)
    } else {
        return Err(StreamError::Malformed);
    };
    let w_hi = (d0 as u16) << 4;
    let w_lo = (d1 as u16 & 0b11110000) >> 4;
    let h_hi = (d1 as u16 & 0b00001111) << 8;
    assert(w_hi as int == d0 as int * 16 && w_lo as int == d1 as int / 16 && h_hi as int == (d1 as int % 16) * 256)
        by (bit_vector)
        requires
            w_hi == (d0 as u16) << 4,
            w_lo == (d1 as u16 & 0b11110000) >> 4,
            h_hi == (d1 as u16 & 0b00001111) << 8;
    Ok(SequenceHeader {
        width: w_hi + w_lo,
        height: d2 as u16 + h_hi,
        ar_den,
        ar_num,
        fr_den,
        fr_num,
    })
}

/// A sequence or picture coding extension.
#[derive(Debug, Clone, Copy, PartialEq, Eq)]
pub enum Extension {
    Sequence { progressive_sequence: bool },
    Picture { tff: bool, rff: bool, prog: bool },
}

/// Byte `i` of the picture coding extension as read into its ten-byte
/// buffer: what the stream holds there, or zero past its end.
pub open spec fn ext_byte(rest: Seq<u8>, i: int) -> int {
    if i < rest.len() {
        rest[i] as int
    } else {
        0
    }
}

/// The result of reading an extension header at `p` in `d`.
pub open spec fn spec_extension_header(d: Seq<u8>, p: int) -> Result<Option<Extension>, StreamError> {
    let rest = d.subrange(p, d.len() as int);
    if d.len() - p < 1 {
        Err(StreamError::UnexpectedEof)
    } else if rest[0] as int / 16 == 1 {
        if rest.len() < 2 {
            Err(StreamError::UnexpectedEof)
        } else {
            Ok(Some(Extension::Sequence { progressive_sequence: rest[1] as int / 8 % 2 == 1 }))
        }
    } else if rest[0] as int / 16 == 8 {
        if ext_byte(rest, 2) % 4 != 3 {
            Err(StreamError::Malformed)
        } else {
            Ok(Some(Extension::Picture {
                tff: ext_byte(rest, 3) / 128 == 1,
                rff: ext_byte(rest, 3) / 2 % 2 == 1,
                prog: ext_byte(rest, 4) / 128 == 1,
            }))
        }
    } else {
        Ok(None)
    }
}

/// The bytes an extension header read takes from `rest`: two for a
/// sequence extension, up to ten (a single read) for a picture coding
/// extension, one for any other.
pub open spec fn ext_consumed(rest: Seq<u8>) -> int {
    if rest[0] as int / 16 == 1 {
        2
    } else if rest[0] as int / 16 == 8 {
        vstd::math::min(10, rest.len() as int)
    } else {
        1
    }
}

/// A picture coding extension at the start of `rest` describes a frame
/// picture (a missing byte reads as zero).
pub open spec fn frame_picture_ok(rest: Seq<u8>) -> bool {
    rest.len() >= 1 && rest[0] as int / 16 == 8 ==> ext_byte(rest, 2) % 4 == 3
}

/// Reads an extension header. A sequence extension gives its progressive
/// flag; a picture coding extension (read with a single, possibly short,
/// read into a ten-byte buffer) gives its field flags and must be a frame
/// picture; any other extension is `None`.
pub fn extension_header(a: &mut ByteCursor) -> (r: Result<Option<Extension>, StreamError>)
    requires
        frame_picture_ok(old(a).data@.subrange(old(a).pos as int, old(a).data@.len() as int)),
    ensures
        final(a).data == old(a).data,
        r == spec_extension_header(old(a).data@, old(a).pos as int),
        r is Ok ==> final(a).pos == old(a).pos + ext_consumed(old(a).data@.subrange(old(a).pos as int, old(a).data@.len() as int)),
{
    read_extension_header(a)
}

/// Reads an extension header as `extension_header` does, with a picture
/// coding extension that is no frame picture `Malformed`.
pub(crate) fn read_extension_header(a: &mut ByteCursor) -> (r: Result<Option<Extension>, StreamError>)
    ensures
        final(a).data == old(a).data,
        r == spec_extension_header(old(a).data@, old(a).pos as int),
        r is Ok ==> final(a).pos == old(a).pos + ext_consumed(old(a).data@.subrange(old(a).pos as int, old(a).data@.len() as int)),
{
    let ghost rest = a.data@.subrange(a.pos as int, a.data@.len() as int);
    let st = a.read_u8()?;
    let kind = (st & 0b11110000) >> 4;
    assert(kind as int == st as int / 16) by (bit_vector)
        requires kind == (st & 0b11110000) >> 4;
    if kind == 0x1 {
        let data1 = a.read_u8()?;
        assert(((data1 & (1u8 << 3)) != 0) == (data1 as int / 8 % 2 == 1)) by (bit_vector);
        Ok(Some(Extension::Sequence { progressive_sequence: (data1 & (1u8 << 3)) != 0 }))
    } else if kind == 0x8 {
        let b2 = peek_or_zero(a, 1);
        let b3 = peek_or_zero(a, 2);
        let b4 = peek_or_zero(a, 3);
        assert(b2 as int == ext_byte(rest, 2) && b3 as int == ext_byte(rest, 3) && b4 as int == ext_byte(rest, 4));
        skip_up_to(a, 9);
        let picture_structure = b2 & 0b11;
        assert(picture_structure as int == b2 as int % 4) by (bit_vector)
            requires picture_structure == b2 & 0b11;
        if picture_structure != 3 {
            return Err(StreamError::Malformed);
        }
        assert(((b3 & (1u8 << 7)) != 0) == (b3 as int / 128 == 1)) by (bit_vector);
        assert(((b3 & (1u8 << 1)) != 0) == (b3 as int / 2 % 2 == 1)) by (bit_vector);
        assert(((b4 & (1u8 << 7)) != 0) == (b4 as int / 128 == 1)) by (bit_vector);
        Ok(Some(Extension::Picture {
            tff: (b3 & (1u8 << 7)) != 0,
            rff: (b3 & (1u8 << 1)) != 0,
            prog: (b4 & (1u8 << 7)) != 0,
        }))
    } else {
        Ok(None)
    }
}

/// The byte `k` places after the position, or zero past the end.
fn peek_or_zero(a: &ByteCursor, k: usize) -> (r: u8)
    requires
        a.pos <= a.data@.len(),
        k < 16,
    ensures
        a.pos + k < a.data@.len() ==> r == a.data@[a.pos + k],
        a.pos + k >= a.data@.len() ==> r == 0,
{
    if a.data.len() - a.pos > k {
        a.data[a.pos + k]
    } else {
        0
    }
}

/// Advances the position by up to `n` bytes, as a short read does.
fn skip_up_to(a: &mut ByteCursor, n: usize)
    requires
        old(a).pos <= old(a).data@.len(),
    ensures
        final(a).data == old(a).data,
        final(a).pos == old(a).pos + vstd::math::min(n as int, old(a).remaining()),
{
    let left = a.data.len() - a.pos;
    if left < n {
        a.pos = a.data.len();
    } else {
        a.pos = a.pos + n;
    }
}

} // verus!
