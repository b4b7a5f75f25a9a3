//! Splitting one program-stream pack of a title set into the events that
//! indexing needs: navigation packets, audio packet headers and video payload.

use vstd::prelude::*;
use crate::bytes::{ByteCursor, StreamError, be16, be32};
use crate::mpegps::{read_pes, pes_failure, pes_pts, read_start_code};

verus! {

/// Size of a DVD sector and of a program-stream pack.
pub const SECTOR_SIZE: usize = 2048;

/// What one packet of a pack contributes to the index.
#[derive(Debug, Clone, Copy, PartialEq, Eq)]
pub enum PackEvent {
    /// A PCI navigation packet: a new VOBU starts, with this start PTM.
    NavPci { first_ptm: u32 },
    /// A DSI navigation packet: VOB and cell of the current VOBU.
    NavDsi { vob: u16, cell: u8 },
    /// A private stream 1 packet of an AC-3 or LPCM stream.
    Audio { id: u8, frame_cnt: u8, first_acc_unit: u16, data_len: usize, pts: Option<u32> },
    /// An MPEG video packet whose payload is `start .. end` of the pack bytes.
    Video { start: usize, end: usize },
}

/// Sub-stream ids of AC-3 audio.
pub open spec fn is_ac3_id(id: u8) -> bool {
    0x80 <= id <= 0x87
}

/// Sub-stream ids of LPCM audio.
pub open spec fn is_lpcm_id(id: u8) -> bool {
    0xA0 <= id <= 0xA7
}

/// The packet at `p` in `d`: its event, if any, and where the next packet
/// starts.
pub open spec fn packet_at(d: Seq<u8>, p: int) -> Result<(Option<PackEvent>, int), StreamError> {
    if d.len() - p < 4 {
        Err(StreamError::UnexpectedEof)
    } else if !(d[p] == 0 && d[p + 1] == 0 && d[p + 2] == 1) {
        Err(StreamError::Malformed)
    } else if d.len() - p < 6 {
        Err(StreamError::UnexpectedEof)
    } else {
        let nxt = d[p + 3];
        let sz = be16(d[p + 4], d[p + 5]);
        let q = p + 6;
        if nxt == 0xBF {
            if d.len() - q < sz {
                Err(StreamError::UnexpectedEof)
            } else if sz >= 1 && d[q] == 0 && sz >= 17 {
                Ok((Some(PackEvent::NavPci { first_ptm: be32(d[q + 13], d[q + 14], d[q + 15], d[q + 16]) as u32 }), q + sz))
            } else if sz >= 1 && d[q] == 1 && sz >= 29 {
                Ok((Some(PackEvent::NavDsi { vob: be16(d[q + 25], d[q + 26]) as u16, cell: d[q + 28] }), q + sz))
            } else {
                Err(StreamError::Malformed)
            }
        } else if nxt == 0xBE || nxt == 0xBB {
            if sz > SECTOR_SIZE {
                Err(StreamError::Malformed)
            } else if d.len() - q < sz {
                Err(StreamError::UnexpectedEof)
            } else {
                Ok((None, q + sz))
            }
        } else if nxt == 0xBD || nxt == 0xE0 {
            let rest = d.subrange(q, d.len() as int);
            match pes_failure(rest, sz) {
                Some(e) => Err(e),
                None => {
                    let start = q + 3 + rest[2];
                    let end = q + sz;
                    if nxt == 0xE0 {
                        Ok((Some(PackEvent::Video { start: start as usize, end: end as usize }), end))
                    } else if end - start < 1 {
                        Err(StreamError::Malformed)
                    } else if is_ac3_id(d[start]) || is_lpcm_id(d[start]) {
                        if end - start < 4 {
                            Err(StreamError::Malformed)
                        } else {
                            Ok((Some(PackEvent::Audio {
                                id: d[start],
                                frame_cnt: d[start + 1],
                                first_acc_unit: be16(d[start + 2], d[start + 3]) as u16,
                                data_len: (end - start - 4) as usize,
                                pts: pes_pts(rest),
                            }), end))
                        }
                    } else {
                        Ok((None, end))
                    }
                },
            }
        } else {
            Err(StreamError::Malformed)
        }
    }
}

/// The events of the packets from `p` on, up to the first packet that ends
/// on a sector boundary, and where that is.
pub open spec fn packets_from(d: Seq<u8>, p: int) -> Result<(Seq<PackEvent>, int), StreamError>
    decreases d.len() - p,
{
    match packet_at(d, p) {
        Err(e) => Err(e),
        Ok((ev, np)) => {
            let evs = match ev {
                Some(x) => seq![x],
                None => Seq::empty(),
            };
            if np <= p || np > d.len() {
                Err(StreamError::Malformed)
            } else if np % (SECTOR_SIZE as int) == 0 {
                Ok((evs, np))
            } else {
                match packets_from(d, np) {
                    Err(e) => Err(e),
                    Ok((more, end)) => Ok((evs + more, end)),
                }
            }
        },
    }
}

/// The events of the pack at the start of `d` (which must begin on a
/// sector boundary) and the number of bytes it spans.
pub open spec fn parse_pack_spec(d: Seq<u8>) -> Result<(Seq<PackEvent>, int), StreamError> {
    if d.len() < 4 {
        Err(StreamError::UnexpectedEof)
    } else if !(d[0] == 0 && d[1] == 0 && d[2] == 1) || d[3] != 0xBA {
        Err(StreamError::Malformed)
    } else if d.len() < 14 {
        Err(StreamError::UnexpectedEof)
    } else {
        packets_from(d, 14)
    }
}

/// Reads one packet at the cursor, as `packet_at` says.
fn packet(b: &mut ByteCursor) -> (r: Result<Option<PackEvent>, StreamError>)
    requires
        old(b).pos <= old(b).data@.len(),
    ensures
        final(b).data == old(b).data,
        match packet_at(old(b).data@, old(b).pos as int) {
            Err(e) => r == Err::<Option<PackEvent>, StreamError>(e),
            Ok((ev, np)) => r == Ok::<Option<PackEvent>, StreamError>(ev) && final(b).pos == np
                && np > old(b).pos && np <= old(b).data@.len(),
        },
{
    let ghost d = b.data@;
    let ghost p = b.pos as int;
    let nxt = read_start_code(b)?;
    let sz = b.read_be_u16()? as usize;
    let q = b.pos;
    if nxt == 0xBF {
        let v = b.read_bytes(sz)?;
        if sz >= 1 && v[0] == 0 && sz >= 17 {
            let mut c = ByteCursor::new(v);
            c.set_position(13);
            let first_ptm = match c.read_be_u32() {
                Ok(x) => x,
                Err(_) => { return Err(StreamError::Malformed); },
            };
            Ok(Some(PackEvent::NavPci { first_ptm }))
        } else if sz >= 1 && v[0] == 1 && sz >= 29 {
            let mut c = ByteCursor::new(v);
            c.set_position(25);
            let vob = match c.read_be_u16() {
                Ok(x) => x,
                Err(_) => { return Err(StreamError::Malformed); },
            };
            let cell = v[28];
            Ok(Some(PackEvent::NavDsi { vob, cell }))
        } else {
            Err(StreamError::Malformed)
        }
    } else if nxt == 0xBE || nxt == 0xBB {
        if sz > SECTOR_SIZE {
            return Err(StreamError::Malformed);
        }
        let _skipped = b.read_bytes(sz)?;
        Ok(None)
    } else if nxt == 0xBD || nxt == 0xE0 {
        let ghost rest = d.subrange(q as int, d.len() as int);
        let pk = read_pes(b, sz)?;
        let end = b.pos;
        let n = pk.inner.len();
        let start = end - n;
        assert(start == q + 3 + rest[2]);
        if nxt == 0xE0 {
            Ok(Some(PackEvent::Video { start, end }))
        } else if n < 1 {
            Err(StreamError::Malformed)
        } else {
            let id = pk.inner[0];
            assert(id == d[start as int]);
            if (0x80 <= id && id <= 0x87) || (0xA0 <= id && id <= 0xA7) {
                if n < 4 {
                    return Err(StreamError::Malformed);
                }
                let fau = (pk.inner[2] as u16) * 256 + pk.inner[3] as u16;
                Ok(Some(PackEvent::Audio {
                    id,
                    frame_cnt: pk.inner[1],
                    first_acc_unit: fau,
                    data_len: n - 4,
                    pts: pk.pts,
                }))
            } else {
                Ok(None)
            }
        }
    } else {
        Err(StreamError::Malformed)
    }
}

/// Reads the pack at the start of `data` (a sector-aligned window of the
/// title set): its events and the number of bytes it spans.
/// `UnexpectedEof` means the window ends inside the pack.
pub fn parse_pack(data: &[u8]) -> (r: Result<(Vec<PackEvent>, usize), StreamError>)
    ensures
        match parse_pack_spec(data@) {
            Err(e) => r is Err && r->Err_0 == e,
            Ok((evs, n)) => r is Ok && r->Ok_0.0@ == evs && r->Ok_0.1 == n,
        },
{
    let ghost d = data@;
    let mut b = ByteCursor::new(data);
    let sc = read_start_code(&mut b)?;
    if sc != 0xBA {
        return Err(StreamError::Malformed);
    }
    let _scr = b.read_bytes(10)?;
    let mut events: Vec<PackEvent> = Vec::new();
    loop
        invariant
            b.data == data,
            d == data@,
            14 <= b.pos <= d.len(),
            parse_pack_spec(d) == match packets_from(d, b.pos as int) {
                Err(e) => Err(e),
                Ok((more, end)) => Ok::<(Seq<PackEvent>, int), StreamError>((events@ + more, end)),
            },
        decreases d.len() - b.pos,
    {
        let ghost p = b.pos as int;
        let ghost before = events@;
        let ev = packet(&mut b)?;
        match ev {
            Some(x) => { events.push(x); },
            None => {},
        }
        proof {
            let evs = match ev { Some(x) => seq![x], None => Seq::<PackEvent>::empty() };
            assert(events@ =~= before + evs);
            if b.pos as int % 2048 != 0 {
                match packets_from(d, b.pos as int) {
                    Err(e) => {},
                    Ok((more, end)) => {
                        assert(before + (evs + more) =~= events@ + more);
                    },
                }
            }
        }
        if b.pos % SECTOR_SIZE == 0 {
            assert(events@ =~= before + match ev { Some(x) => seq![x], None => Seq::<PackEvent>::empty() });
            return Ok((events, b.pos));
        }
    }
}

/// Law: a navigation packet read as PCI gives as the VOBU's first PTM the
/// big-endian 32-bit number in bytes 13 to 16 of its payload (the payload
/// starts after the six bytes of start code and length, with the PCI
/// substream byte 0 first).
pub proof fn lemma_pci_first_ptm(d: Seq<u8>, p: int, first_ptm: u32, next: int)
    requires
        packet_at(d, p) == Ok::<(Option<PackEvent>, int), StreamError>((Some(PackEvent::NavPci { first_ptm }), next)),
    ensures
        d[p + 3] == 0xBF,
        d[p + 6] == 0,
        p + 6 + 17 <= d.len(),
        first_ptm as int == d[p + 19] as int * 0x100_0000 + d[p + 20] as int * 0x1_0000 + d[p + 21] as int * 0x100
            + d[p + 22] as int,
{
    let q = p + 6;
    let v = be32(d[q + 13], d[q + 14], d[q + 15], d[q + 16]);
    assert(0 <= v < 0x1_0000_0000) by (nonlinear_arith)
        requires
            v == ((d[q + 13] as int * 256 + d[q + 14] as int) * 256 + d[q + 15] as int) * 256 + d[q + 16] as int,
            0 <= d[q + 13] < 256, 0 <= d[q + 14] < 256, 0 <= d[q + 15] < 256, 0 <= d[q + 16] < 256;
}

} // verus!
