//! Demuxing one audio sub-stream, or the MPEG video, of a run of packs.

use vstd::prelude::*;
use crate::bytes::{ByteCursor, StreamError, be16};
use crate::mpegps::{read_pes, pes_failure, read_start_code};
use crate::pack::SECTOR_SIZE;

verus! {

/// Collects the payload of one private-stream-1 sub-stream until `target`
/// bytes (less 3 per packet read, when stripping LPCM headers) are there.
pub struct AudioDemuxer {
    pub target: usize,
    pub stream_id: u8,
    pub strip_pcm: bool,
    /// Private stream 1 packets read so far, of any sub-stream.
    pub packets: usize,
}

/// Whether LPCM packet headers are stripped for this stream.
pub open spec fn strips(strip_pcm: bool, id: u8) -> bool {
    strip_pcm && 0xA0 <= id <= 0xA7
}

/// One packet at `p` of a pack `d` for the audio demuxer, with `packets`
/// packets read before and `out` collected: the new packet count and
/// collection, whether the target is reached, and where the next packet
/// starts.
pub open spec fn audio_packet(d: Seq<u8>, p: int, target: int, id: u8, strip: bool, packets: int, out: Seq<u8>)
    -> Result<(int, Seq<u8>, bool, int), StreamError>
{
    if d.len() - p < 4 {
        Err(StreamError::UnexpectedEof)
    } else if !(d[p] == 0 && d[p + 1] == 0 && d[p + 2] == 1) {
        Err(StreamError::Malformed)
    } else if d.len() - p < 6 {
        Err(StreamError::UnexpectedEof)
    } else {
        let nxt = d[p + 3];
        let sz = be16(d[p + 4], d[p + 5]);
        let q = p + 6;
        if nxt == 0xE0 || nxt == 0xBF || nxt == 0xBE || nxt == 0xBB {
            if sz > SECTOR_SIZE {
                Err(StreamError::Malformed)
            } else if d.len() - q < sz {
                Err(StreamError::UnexpectedEof)
            } else {
                Ok((packets, out, false, q + sz))
            }
        } else if nxt == 0xBD {
            let rest = d.subrange(q, d.len() as int);
            match pes_failure(rest, sz) {
                Some(e) => Err(e),
                None => {
                    let start = q + 3 + rest[2];
                    let end = q + sz;
                    let skip = 4 + if strips(strip, id) { 3int } else { 0int };
                    if end - start < 1 {
                        Err(StreamError::Malformed)
                    } else if d[start] == id && end - start < skip {
                        Err(StreamError::Malformed)
                    } else {
                        let out2 = if d[start] == id { out + d.subrange(start + skip, end) } else { out };
                        let pk = packets + 1;
                        let adj = target - if strip { 3 * pk } else { 0 };
                        if pk > usize::MAX || adj < 0 || out2.len() > adj {
                            Err(StreamError::Malformed)
                        } else {
                            Ok((pk, out2, out2.len() == adj, end))
                        }
                    }
                },
            }
        } else {
            Err(StreamError::Malformed)
        }
    }
}

/// The packets of a pack from `p` on for the audio demuxer: stops at the
/// end of the pack or when the target is reached.
pub open spec fn audio_packets_from(d: Seq<u8>, p: int, target: int, id: u8, strip: bool, packets: int, out: Seq<u8>)
    -> Result<(int, Seq<u8>, bool), StreamError>
    decreases d.len() - p,
{
    match audio_packet(d, p, target, id, strip, packets, out) {
        Err(e) => Err(e),
        Ok((pk, o, done, np)) => if np <= p || np > d.len() {
            Err(StreamError::Malformed)
        } else if done || np % (SECTOR_SIZE as int) == 0 {
            Ok((pk, o, done))
        } else {
            audio_packets_from(d, np, target, id, strip, pk, o)
        },
    }
}

/// A whole pack for the audio demuxer: the pack header, then its packets.
pub open spec fn audio_pack(d: Seq<u8>, target: int, id: u8, strip: bool, packets: int, out: Seq<u8>)
    -> Result<(int, Seq<u8>, bool), StreamError>
{
    if d.len() < 4 {
        Err(StreamError::UnexpectedEof)
    } else if !(d[0] == 0 && d[1] == 0 && d[2] == 1) || d[3] != 0xBA {
        Err(StreamError::Malformed)
    } else if d.len() < 14 {
        Err(StreamError::UnexpectedEof)
    } else {
        audio_packets_from(d, 14, target, id, strip, packets, out)
    }
}

impl AudioDemuxer {
    pub fn new(target: usize, stream_id: u8, strip_pcm: bool) -> (r: AudioDemuxer)
        ensures
            r.target == target,
            r.stream_id == stream_id,
            r.strip_pcm == strip_pcm,
            r.packets == 0,
    {
        AudioDemuxer { target, stream_id, strip_pcm, packets: 0 }
    }

    /// One packet at the cursor, as `audio_packet` says.
    fn packet(&mut self, b: &mut ByteCursor, out: &mut Vec<u8>) -> (r: Result<bool, StreamError>)
        requires
            old(b).pos <= old(b).data@.len(),
        ensures
            final(b).data == old(b).data,
            final(self).target == old(self).target,
            final(self).stream_id == old(self).stream_id,
            final(self).strip_pcm == old(self).strip_pcm,
            match audio_packet(old(b).data@, old(b).pos as int, old(self).target as int, old(self).stream_id,
                old(self).strip_pcm, old(self).packets as int, old(out)@) {
                Err(e) => r == Err::<bool, StreamError>(e),
                Ok((pk, o, done, np)) => r == Ok::<bool, StreamError>(done) && final(self).packets == pk
                    && final(out)@ == o && final(b).pos == np && np > old(b).pos && np <= old(b).data@.len(),
            },
    {
        let ghost d = b.data@;
        let nxt = read_start_code(b)?;
        let sz = b.read_be_u16()? as usize;
        let q = b.pos;
        if nxt == 0xE0 || nxt == 0xBF || nxt == 0xBE || nxt == 0xBB {
            if sz > SECTOR_SIZE {
                return Err(StreamError::Malformed);
            }
            let _skipped = b.read_bytes(sz)?;
            Ok(false)
        } else if nxt == 0xBD {
            let ghost rest = d.subrange(q as int, d.len() as int);
            let pk = read_pes(b, sz)?;
            let payload = pk.inner;
            let n = payload.len();
            assert(payload@ == d.subrange(q + 3 + rest[2], q + sz));
            let skip: usize = if self.strip_pcm && 0xA0 <= self.stream_id && self.stream_id <= 0xA7 { 7 } else { 4 };
            if n < 1 {
                return Err(StreamError::Malformed);
            }
            if payload[0] == self.stream_id {
                if n < skip {
                    return Err(StreamError::Malformed);
                }
                let part = vstd::slice::slice_subrange(payload.as_slice(), skip, n);
                out.extend_from_slice(part);
                assert(out@ =~= old(out)@ + d.subrange(q + 3 + rest[2] + skip, q + sz));
            }
            if self.packets == usize::MAX {
                return Err(StreamError::Malformed);
            }
            self.packets = self.packets + 1;
            let sub: usize = if self.strip_pcm {
                if self.packets > usize::MAX / 3 {
                    return Err(StreamError::Malformed);
                }
                3 * self.packets
            } else {
                0
            };
            if sub > self.target {
                return Err(StreamError::Malformed);
            }
            let adj = self.target - sub;
            if out.len() > adj {
                return Err(StreamError::Malformed);
            }
            Ok(out.len() == adj)
        } else {
            Err(StreamError::Malformed)
        }
    }

    /// Demuxes one 2048-byte pack, appending to `out`; `true` when the
    /// target is reached (the rest of the pack is then not read).
    pub fn feed_pack(&mut self, pack: &[u8], out: &mut Vec<u8>) -> (r: Result<bool, StreamError>)
        ensures
            final(self).target == old(self).target,
            final(self).stream_id == old(self).stream_id,
            final(self).strip_pcm == old(self).strip_pcm,
            match audio_pack(pack@, old(self).target as int, old(self).stream_id, old(self).strip_pcm,
                old(self).packets as int, old(out)@) {
                Err(e) => r == Err::<bool, StreamError>(e),
                Ok((pk, o, done)) => r == Ok::<bool, StreamError>(done) && final(self).packets == pk && final(out)@ == o,
            },
    {
        let ghost d = pack@;
        let mut b = ByteCursor::new(pack);
        let sc = read_start_code(&mut b)?;
        if sc != 0xBA {
            return Err(StreamError::Malformed);
        }
        let _scr = b.read_bytes(10)?;
        loop
            invariant
                b.data == pack,
                d == pack@,
                14 <= b.pos <= d.len(),
                self.target == old(self).target,
                self.stream_id == old(self).stream_id,
                self.strip_pcm == old(self).strip_pcm,
                audio_pack(d, self.target as int, self.stream_id, self.strip_pcm, old(self).packets as int, old(out)@)
                    == audio_packets_from(d, b.pos as int, self.target as int, self.stream_id, self.strip_pcm,
                        self.packets as int, out@),
            decreases d.len() - b.pos,
        {
            let done = self.packet(&mut b, out)?;
            if done || b.pos % SECTOR_SIZE == 0 {
                return Ok(done);
            }
        }
    }
}

/// Collects MPEG video payload until `target` bytes are there.
pub struct VideoDemuxer {
    pub target: usize,
}

/// One packet at `p` of a pack `d` for the video demuxer, with `out`
/// collected: the new collection, whether the target is reached, and
/// where the next packet starts. A video packet's payload follows its
/// header data; a packet too short for its header, or whose payload
/// overshoots the target, is `Malformed`.
pub open spec fn video_packet(d: Seq<u8>, p: int, target: int, out: Seq<u8>) -> Result<(Seq<u8>, bool, int), StreamError> {
    if d.len() - p < 4 {
        Err(StreamError::UnexpectedEof)
    } else if !(d[p] == 0 && d[p + 1] == 0 && d[p + 2] == 1) {
        Err(StreamError::Malformed)
    } else if d.len() - p < 6 {
        Err(StreamError::UnexpectedEof)
    } else {
        let nxt = d[p + 3];
        let sz = be16(d[p + 4], d[p + 5]);
        let q = p + 6;
        if nxt == 0xBF || nxt == 0xBD || nxt == 0xBE || nxt == 0xBB {
            if sz > SECTOR_SIZE || d.len() - q < sz {
                Err(StreamError::Malformed)
            } else {
                Ok((out, false, q + sz))
            }
        } else if nxt == 0xE0 {
            if sz > SECTOR_SIZE {
                Err(StreamError::Malformed)
            } else if d.len() - q < sz {
                Err(StreamError::UnexpectedEof)
            } else if sz < 3 || 3 + d[q + 2] > sz {
                Err(StreamError::Malformed)
            } else {
                let out2 = out + d.subrange(q + 3 + d[q + 2], q + sz);
                if out2.len() > target {
                    Err(StreamError::Malformed)
                } else {
                    Ok((out2, out2.len() == target, q + sz))
                }
            }
        } else {
            Err(StreamError::Malformed)
        }
    }
}

/// The packets of a pack from `p` on for the video demuxer.
pub open spec fn video_packets_from(d: Seq<u8>, p: int, target: int, out: Seq<u8>) -> Result<(Seq<u8>, bool), StreamError>
    decreases d.len() - p,
{
    match video_packet(d, p, target, out) {
        Err(e) => Err(e),
        Ok((o, done, np)) => if np <= p || np > d.len() {
            Err(StreamError::Malformed)
        } else if done || np % (SECTOR_SIZE as int) == 0 {
            Ok((o, done))
        } else {
            video_packets_from(d, np, target, o)
        },
    }
}

/// A whole pack for the video demuxer.
pub open spec fn video_pack(d: Seq<u8>, target: int, out: Seq<u8>) -> Result<(Seq<u8>, bool), StreamError> {
    if d.len() < 4 {
        Err(StreamError::UnexpectedEof)
    } else if !(d[0] == 0 && d[1] == 0 && d[2] == 1) || d[3] != 0xBA {
        Err(StreamError::Malformed)
    } else if d.len() < 14 {
        Err(StreamError::UnexpectedEof)
    } else {
        video_packets_from(d, 14, target, out)
    }
}

impl VideoDemuxer {
    pub fn new(target: usize) -> (r: VideoDemuxer)
        ensures
            r.target == target,
    {
        VideoDemuxer { target }
    }

    /// With a target of zero nothing is read.
    pub fn is_done_before_start(&self) -> (r: bool)
        ensures
            r == (self.target == 0),
    {
        self.target == 0
    }

    fn packet(&self, b: &mut ByteCursor, out: &mut Vec<u8>) -> (r: Result<bool, StreamError>)
        requires
            old(b).pos <= old(b).data@.len(),
        ensures
            final(b).data == old(b).data,
            match video_packet(old(b).data@, old(b).pos as int, self.target as int, old(out)@) {
                Err(e) => r == Err::<bool, StreamError>(e),
                Ok((o, done, np)) => r == Ok::<bool, StreamError>(done) && final(out)@ == o && final(b).pos == np
                    && np > old(b).pos && np <= old(b).data@.len(),
            },
    {
        let ghost d = b.data@;
        let nxt = read_start_code(b)?;
        let sz = b.read_be_u16()? as usize;
        let q = b.pos;
        if nxt == 0xBF || nxt == 0xBD || nxt == 0xBE || nxt == 0xBB {
            if sz > SECTOR_SIZE {
                return Err(StreamError::Malformed);
            }
            match b.read_bytes(sz) {
                Ok(_) => Ok(false),
                Err(_) => Err(StreamError::Malformed),
            }
        } else if nxt == 0xE0 {
            if sz > SECTOR_SIZE {
                return Err(StreamError::Malformed);
            }
            let pkt = b.read_bytes(sz)?;
            if sz < 3 {
                return Err(StreamError::Malformed);
            }
            let st = pkt[2] as usize;
            if 3 + st > sz {
                return Err(StreamError::Malformed);
            }
            let part = vstd::slice::slice_subrange(pkt, 3 + st, sz);
            out.extend_from_slice(part);
            assert(out@ =~= old(out)@ + d.subrange(q + 3 + d[q + 2], q + sz));
            if out.len() > self.target {
                return Err(StreamError::Malformed);
            }
            Ok(out.len() == self.target)
        } else {
            Err(StreamError::Malformed)
        }
    }

    /// Demuxes one 2048-byte pack, appending to `out`; `true` when the
    /// target is reached.
    pub fn feed_pack(&self, pack: &[u8], out: &mut Vec<u8>) -> (r: Result<bool, StreamError>)
        ensures
            match video_pack(pack@, self.target as int, old(out)@) {
                Err(e) => r == Err::<bool, StreamError>(e),
                Ok((o, done)) => r == Ok::<bool, StreamError>(done) && final(out)@ == o,
            },
    {
        let ghost d = pack@;
        let mut b = ByteCursor::new(pack);
        let sc = read_start_code(&mut b)?;
        if sc != 0xBA {
            return Err(StreamError::Malformed);
        }
        let _scr = b.read_bytes(10)?;
        loop
            invariant
                b.data == pack,
                d == pack@,
                14 <= b.pos <= d.len(),
                video_pack(d, self.target as int, old(out)@) == video_packets_from(d, b.pos as int, self.target as int, out@),
            decreases d.len() - b.pos,
        {
            let done = self.packet(&mut b, out)?;
            if done || b.pos % SECTOR_SIZE == 0 {
                return Ok(done);
            }
        }
    }
}

} // verus!
