//! Layout of an AC-3 or LPCM audio stream over a run of VOBUs: which bytes
//! of each VOBU's demuxed audio belong to the clip, where the clip's first
//! frame starts, and how much audio runs past its end.

use vstd::prelude::*;
use crate::index::{IndexedVts, IndexedVtsView, KnowUnit, StreamView, VobuView, streams_view};
use crate::indexer::{stream_index, lemma_stream_index_bounds};
use crate::vobu_range::EVobu;

verus! {

/// Length of an AC-3 frame in 90 kHz ticks.
pub const AC3_FRAME_TICKS: u32 = 2880;

/// Length of an LPCM frame in 90 kHz ticks.
pub const LPCM_FRAME_TICKS: u32 = 150;

/// Frame length in ticks of the codec.
pub open spec fn codec_ticks(is_lpcm: bool) -> int {
    if is_lpcm { LPCM_FRAME_TICKS as int } else { AC3_FRAME_TICKS as int }
}

/// Walks the audio frames of the access units `kus` in order (frame `j` of
/// unit `u` starts at `kus[u].pts + flen * j`) and stops at the first frame
/// whose start (or end, with `by_end`) is at least `target`. Gives that
/// frame's `(u, j)` if there is one, the number of frames passed over and
/// `target` less the start of the last of them. `None` when a computed
/// start or end, or (with `counting`) the count, exceeds `u32::MAX`.
pub open spec fn frame_scan(
    kus: Seq<KnowUnit>,
    flen: int,
    target: int,
    by_end: bool,
    counting: bool,
    u: int,
    j: int,
    count: int,
    cut: int,
) -> Option<(Option<(int, int)>, int, int)>
    decreases kus.len() - u, (if 0 <= u < kus.len() { kus[u].frame_cnt - j } else { 0 }),
{
    if u < 0 || u >= kus.len() || j < 0 {
        Some((None, count, cut))
    } else if j >= kus[u].frame_cnt {
        frame_scan(kus, flen, target, by_end, counting, u + 1, 0, count, cut)
    } else {
        let start = kus[u].pts + flen * j;
        let v = if by_end { start + flen } else { start };
        if v > u32::MAX {
            None
        } else if v >= target {
            Some((Some((u, j)), count, cut))
        } else if counting && count + 1 > u32::MAX {
            None
        } else {
            frame_scan(kus, flen, target, by_end, counting, u, j + 1, if counting { count + 1 } else { count }, target - start)
        }
    }
}

/// Runs `frame_scan` from the first frame.
fn scan_frames(kus: &Vec<KnowUnit>, flen: u32, target: u32, by_end: bool, counting: bool) -> (r: Option<(Option<(usize, u32)>, u32, u32)>)
    requires
        flen <= 4096,
    ensures
        ({
            let spec = frame_scan(kus@, flen as int, target as int, by_end, counting, 0, 0, 0, 0);
            &&& spec is None <==> r is None
            &&& r is Some ==> r.unwrap().2 as int == spec.unwrap().2
            &&& r is Some && counting ==> r.unwrap().1 as int == spec.unwrap().1
            &&& r is Some && r.unwrap().0 is None ==> spec.unwrap().0 is None
            &&& r is Some && r.unwrap().0 is Some ==> {
                let u = r.unwrap().0.unwrap().0 as int;
                let j = r.unwrap().0.unwrap().1 as int;
                &&& spec.unwrap().0 == Some((u, j))
                &&& 0 <= u < kus@.len()
                &&& 0 <= j < kus@[u].frame_cnt
                &&& kus@[u].pts + flen * j + (if by_end { flen as int } else { 0int }) <= u32::MAX
            }
        }),
{
    let n = kus.len();
    let mut u: usize = 0;
    let mut j: u32 = 0;
    let mut count: u32 = 0;
    let mut cut: u32 = 0;
    loop
        invariant
            n == kus@.len(),
            flen <= 4096,
            u <= n,
            u < n ==> j <= kus@[u as int].frame_cnt,
            j <= 255,
            frame_scan(kus@, flen as int, target as int, by_end, counting, 0, 0, 0, 0)
                == frame_scan(kus@, flen as int, target as int, by_end, counting, u as int, j as int, count as int, cut as int),
        decreases (n - u) * 257 - j,
    {
        if u >= n {
            return Some((None, count, cut));
        }
        let fc = kus[u].frame_cnt as u32;
        if j >= fc {
            u = u + 1;
            j = 0;
        } else {
            let pts = kus[u].pts as u64;
            assert((flen as int) * (j as int) <= 4096 * 255) by (nonlinear_arith)
                requires flen <= 4096, j <= 255;
            let fj = flen as u64 * j as u64;
            let start = pts + fj;
            let v = if by_end { start + flen as u64 } else { start };
            if v > u32::MAX as u64 {
                return None;
            }
            if v >= target as u64 {
                return Some((Some((u, j)), count, cut));
            }
            if counting && count == u32::MAX {
                return None;
            }
            if counting {
                count = count + 1;
            }
            cut = (target as u64 - start) as u32;
            j = j + 1;
        }
    }
}

/// The frame count of a sequence of access units.
pub open spec fn frame_total(kus: Seq<KnowUnit>) -> int
    decreases kus.len(),
{
    if kus.len() == 0 {
        0
    } else {
        frame_total(kus.drop_last()) + kus.last().frame_cnt
    }
}

/// The audio sub-stream id of audio track `audio`.
pub open spec fn audio_stream_id(audio: u8, is_lpcm: bool) -> int {
    audio + if is_lpcm { 0xA0int } else { 0x80int }
}

/// What the clip's audio needs besides its own VOBUs: when the VOBU after
/// the last one holds audio frames that start before its first PTM (they
/// belong to the clip), that VOBU is appended and the ticks by which those
/// frames run past the clip's end are reported. Gives the stream id too.
/// `None` where the stream is missing, the ids or counts overflow, or the
/// VOBU list or index is empty.
pub open spec fn plan_spec(index: IndexedVtsView, vobus: Seq<(int, VobuView)>, audio: u8, is_lpcm: bool)
    -> Option<(Option<(int, VobuView)>, u8, u32)>
{
    let id = audio_stream_id(audio, is_lpcm);
    if id > 255 || vobus.len() == 0 || index.vobus.len() == 0 {
        None
    } else {
        let last = vobus.last().0;
        if last == index.vobus.len() - 1 {
            Some((None, id as u8, 0u32))
        } else {
            let after_i = last + 1;
            if after_i >= index.vobus.len() || after_i < 0 {
                None
            } else {
                let av = index.vobus[after_i];
                let next = av.first_ptm;
                let sidx = stream_index(av.streams, id as u8);
                if sidx < 0 {
                    None
                } else {
                    let kus = av.streams[sidx].packets.know_units;
                    if kus.len() == 0 {
                        None
                    } else if !(kus[0].pts < next) {
                        Some((None, id as u8, 0u32))
                    } else {
                        let flen = codec_ticks(is_lpcm);
                        match frame_scan(kus, flen, next as int, false, true, 0, 0, 0, 0) {
                            None => None,
                            Some((_, count, cut)) => {
                                let total = frame_total(kus);
                                if total > 255 || total < count || (total - count) * flen > u32::MAX
                                    || (total - count) * flen < cut {
                                    None
                                } else {
                                    Some((Some((after_i, av)), id as u8, ((total - count) * flen - cut) as u32))
                                }
                            },
                        }
                    }
                }
            }
        }
    }
}

/// The `(index, view)` pairs of a VOBU list.
pub open spec fn evobus_view(s: Seq<EVobu>) -> Seq<(int, VobuView)> {
    s.map_values(|e: EVobu| (e.i as int, e.v@))
}

/// The sum of the frame counts as a `u8` running sum computes it,
/// `None` when it exceeds 255.
fn frame_total_u8(kus: &Vec<KnowUnit>) -> (r: Option<u8>)
    ensures
        frame_total(kus@) > 255 ==> r is None,
        frame_total(kus@) <= 255 ==> r == Some(frame_total(kus@) as u8),
        r is Some ==> r.unwrap() as int == frame_total(kus@),
{
    let mut acc: u8 = 0;
    let mut i: usize = 0;
    while i < kus.len()
        invariant
            i <= kus@.len(),
            acc as int == frame_total(kus@.subrange(0, i as int)),
        decreases kus@.len() - i,
    {
        assert(kus@.subrange(0, i + 1).drop_last() =~= kus@.subrange(0, i as int));
        let f = kus[i].frame_cnt;
        if acc > 255 - f {
            proof {
                lemma_frame_total_prefix_mono(kus@, i + 1);
            }
            return None;
        }
        acc = acc + f;
        i = i + 1;
    }
    assert(kus@.subrange(0, kus@.len() as int) =~= kus@);
    Some(acc)
}

/// The frame total of a sequence is at least that of any prefix.
proof fn lemma_frame_total_prefix_mono(kus: Seq<KnowUnit>, m: int)
    requires
        0 <= m <= kus.len(),
    ensures
        frame_total(kus.subrange(0, m)) <= frame_total(kus),
    decreases kus.len(),
{
    if kus.len() == m {
        assert(kus.subrange(0, m) =~= kus);
    } else {
        assert(kus.drop_last().subrange(0, m) =~= kus.subrange(0, m));
        lemma_frame_total_prefix_mono(kus.drop_last(), m);
    }
}

/// What `plan_spec` gives, with the appended VOBU given by its index.
fn audio_plan_parts(index: &IndexedVts, vobus: &Vec<EVobu>, audio: u8, is_lpcm: bool) -> (r: Option<(Option<usize>, u8, u32)>)
    ensures
        match plan_spec(index@, evobus_view(vobus@), audio, is_lpcm) {
            None => r is None,
            Some((extra, id, cut_end)) => r is Some && r.unwrap().1 == id && r.unwrap().2 == cut_end && match extra {
                None => r.unwrap().0 is None,
                Some(x) => r.unwrap().0 is Some && (r.unwrap().0.unwrap() as int) < index@.vobus.len()
                    && x == (r.unwrap().0.unwrap() as int, index@.vobus[r.unwrap().0.unwrap() as int]),
            },
        },
{
    let base: u8 = if is_lpcm { 0xA0 } else { 0x80 };
    if audio > 255 - base {
        return None;
    }
    let id = audio + base;
    let nv = vobus.len();
    let ni = index.vobus.len();
    if nv == 0 || ni == 0 {
        return None;
    }
    let last = vobus[nv - 1].i;
    assert(evobus_view(vobus@).last().0 == last);
    if last == ni - 1 {
        return Some((None, id, 0));
    }
    if last == usize::MAX || last + 1 >= ni {
        return None;
    }
    let after_i = last + 1;
    let av = &index.vobus[after_i];
    let next = av.first_ptm;
    let ghost avv = index@.vobus[after_i as int];
    assert(av@ == avv);
    proof {
        lemma_stream_index_bounds(avv.streams, id);
    }
    let sidx = match find_stream_in(&av.streams, id) {
        None => { return None; },
        Some(k) => k,
    };
    let kus = &av.streams[sidx].packets.know_units;
    assert(streams_view(av.streams@)[sidx as int] == av.streams@[sidx as int]@);
    assert(kus@ == avv.streams[sidx as int].packets.know_units);
    if kus.len() == 0 {
        return None;
    }
    if !(kus[0].pts < next) {
        return Some((None, id, 0));
    }
    let flen: u32 = if is_lpcm { LPCM_FRAME_TICKS } else { AC3_FRAME_TICKS };
    let (_hit, count, cut) = match scan_frames(kus, flen, next, false, true) {
        None => { return None; },
        Some(x) => x,
    };
    let total = match frame_total_u8(kus) {
        None => { return None; },
        Some(t) => t as u32,
    };
    if total < count {
        return None;
    }
    let left = total - count;
    let l64 = left as u64;
    let f64v = flen as u64;
    assert(l64 * f64v <= 0xffff_ffff * 0xffff_ffff) by (nonlinear_arith)
        requires
            l64 <= 0xffff_ffff,
            f64v <= 0xffff_ffff;
    if l64 * f64v > u32::MAX as u64 {
        return None;
    }
    let span = left * flen;
    if span < cut {
        return None;
    }
    let cut_end = span - cut;
    proof {
        assert(frame_total(kus@) == total as int);
    }
    Some((Some(after_i), id, cut_end))
}

/// Whether the clip's audio can be planned: `raw_audio_frames_plan`
/// accepts exactly these inputs.
pub fn audio_plan_possible(index: &IndexedVts, vobus: &Vec<EVobu>, audio: u8, is_lpcm: bool) -> (r: bool)
    ensures
        r == plan_spec(index@, evobus_view(vobus@), audio, is_lpcm) is Some,
{
    audio_plan_parts(index, vobus, audio, is_lpcm).is_some()
}

/// The VOBUs the clip's audio spans (`vobus`, possibly with the following
/// VOBU appended), the stream id, and the ticks to cut at the end, as
/// `plan_spec` says. The stream must be there and the counts must fit.
pub fn raw_audio_frames_plan(index: &IndexedVts, vobus: Vec<EVobu>, audio: u8, is_lpcm: bool) -> (r: (Vec<EVobu>, u8, u32))
    requires
        plan_spec(index@, evobus_view(vobus@), audio, is_lpcm) is Some,
    ensures
        match plan_spec(index@, evobus_view(vobus@), audio, is_lpcm) {
            None => false,
            Some((extra, id, cut_end)) => r.1 == id && r.2 == cut_end && match extra {
                None => r.0@ == vobus@,
                Some(x) => r.0@.len() == vobus@.len() + 1 && r.0@.subrange(0, vobus@.len() as int) == vobus@
                    && evobus_view(r.0@).last() == x,
            },
        },
{
    let parts = audio_plan_parts(index, &vobus, audio, is_lpcm);
    let (extra, id, cut_end) = parts.unwrap();
    let mut out = vobus;
    let ghost before = out@;
    match extra {
        None => {},
        Some(k) => {
            let avc = index.vobus[k].clone();
            out.push(EVobu { i: k, v: avc });
            proof {
                assert(out@.subrange(0, before.len() as int) =~= before);
            }
        },
    }
    (out, id, cut_end)
}

/// The first stream with `id`, as `stream_index` says.
pub fn find_stream_in(streams: &Vec<crate::index::Stream>, id: u8) -> (r: Option<usize>)
    ensures
        stream_index(streams_view(streams@), id) < 0 <==> r is None,
        r is Some ==> r.unwrap() as int == stream_index(streams_view(streams@), id) && (r.unwrap() as int) < streams@.len(),
{
    let ghost sv = streams_view(streams@);
    proof {
        lemma_stream_index_bounds(sv, id);
    }
    let mut i: usize = 0;
    assert(sv.subrange(0, 0).len() == 0);
    while i < streams.len()
        invariant
            i <= sv.len(),
            sv == streams_view(streams@),
            stream_index(sv.subrange(0, i as int), id) == -1,
        decreases sv.len() - i,
    {
        assert(sv.subrange(0, i + 1).drop_last() =~= sv.subrange(0, i as int));
        if streams[i].id == id {
            assert(stream_index(sv.subrange(0, i + 1), id) == i);
            proof {
                crate::indexer::lemma_stream_index_prefix(sv, id, i + 1);
            }
            return Some(i);
        }
        i = i + 1;
    }
    assert(sv.subrange(0, sv.len() as int) =~= sv);
    None
}

} // verus!

verus! {

/// Format of an LPCM stream, from the second byte of its audio header.
#[derive(Debug, Clone, Copy, PartialEq, Eq)]
pub struct LpcmFormat {
    pub quant: u64,
    pub sample_rate: u64,
    pub channels: u64,
    pub samples_per_frame: u64,
    /// Bytes per LPCM frame (1/600 s).
    pub frame_size: u64,
}

/// The format that LPCM header byte `ib` announces: quantisation (bits
/// 7-6: 16 or 24; 20 is not supported), sample rate (bits 5-4: 48 or
/// 96 kHz), channels (bits 1-0, plus one) and the frame size in bytes.
pub open spec fn lpcm_format_spec(ib: u8) -> Option<LpcmFormat> {
    let q = ib as int / 64;
    let r = ib as int / 16 % 4;
    let quant: int = if q == 0 { 16 } else { 24 };
    let rate: int = if r == 0 { 48000 } else { 96000 };
    let ch: int = ib as int % 4 + 1;
    if !(q == 0 || q == 2) || !(r == 0 || r == 1) {
        None
    } else {
        Some(LpcmFormat {
            quant: quant as u64,
            sample_rate: rate as u64,
            channels: ch as u64,
            samples_per_frame: (rate / 600) as u64,
            frame_size: ((rate / 600) * quant * ch / 8) as u64,
        })
    }
}

/// Law: what the LPCM header byte `ib` announces, bit by bit. Bits 7-6
/// give the quantisation (`00` 16 bits, `10` 24 bits; `01` and `11` are
/// not decoded), bits 5-4 the sample rate (`00` 48 kHz, `01` 96 kHz; the
/// others are not decoded), bits 1-0 the channel count less one. A frame
/// lasts 1/600 s, and its bytes are its samples of all channels.
pub proof fn lemma_lpcm_header_bits(ib: u8)
    ensures
        lpcm_format_spec(ib) is Some <==> ((ib & 0xC0) == 0x00 || (ib & 0xC0) == 0x80)
            && ((ib & 0x30) == 0x00 || (ib & 0x30) == 0x10),
        lpcm_format_spec(ib) matches Some(f) ==> {
            &&& (f.quant == 16 <==> (ib & 0xC0) == 0x00)
            &&& (f.quant == 24 <==> (ib & 0xC0) == 0x80)
            &&& (f.sample_rate == 48000 <==> (ib & 0x30) == 0x00)
            &&& (f.sample_rate == 96000 <==> (ib & 0x30) == 0x10)
            &&& f.channels == (ib & 0x03) as int + 1
            &&& f.samples_per_frame * 600 == f.sample_rate
            &&& f.frame_size * 8 == f.samples_per_frame * f.quant * f.channels
        },
{
    assert(((ib & 0xC0) == 0x00 <==> ib / 64 == 0) && ((ib & 0xC0) == 0x80 <==> ib / 64 == 2)
        && ((ib & 0x30) == 0x00 <==> ib / 16 % 4 == 0) && ((ib & 0x30) == 0x10 <==> ib / 16 % 4 == 1)
        && (ib & 0x03) == ib % 4) by (bit_vector);
    let q = ib as int / 64;
    let r = ib as int / 16 % 4;
    let ch = ib as int % 4 + 1;
    if (q == 0 || q == 2) && (r == 0 || r == 1) {
        let quant: int = if q == 0 { 16 } else { 24 };
        let rate: int = if r == 0 { 48000 } else { 96000 };
        assert((rate / 600) * quant * ch % 8 == 0) by (nonlinear_arith)
            requires rate == 48000 || rate == 96000, quant == 16 || quant == 24;
        assert((rate / 600) * quant * ch / 8 * 8 == (rate / 600) * quant * ch) by (nonlinear_arith)
            requires (rate / 600) * quant * ch % 8 == 0;
        assert(0 <= (rate / 600) * quant * ch) by (nonlinear_arith)
            requires rate >= 0, quant >= 0, ch >= 0;
        assert((rate / 600) * quant * ch <= 160 * 24 * 4) by (nonlinear_arith)
            requires 0 <= rate / 600 <= 160, 0 <= quant <= 24, 0 <= ch <= 4;
    }
}

/// The LPCM format announced at the start of a demuxed LPCM stream, or
/// `None` for a short stream or an unsupported format.
fn lpcm_format_checked(stream_buffer: &[u8]) -> (r: Option<LpcmFormat>)
    ensures
        stream_buffer@.len() < 2 ==> r is None,
        stream_buffer@.len() >= 2 ==> r == lpcm_format_spec(stream_buffer@[1]),
{
    if stream_buffer.len() < 2 {
        return None;
    }
    let ib = stream_buffer[1];
    let q = (ib & 0b11000000) >> 6;
    let rb = (ib & 0b00110000) >> 4;
    let cb = ib & 0b11;
    assert(q as int == ib as int / 64 && rb as int == ib as int / 16 % 4 && cb as int == ib as int % 4) by (bit_vector)
        requires q == (ib & 0b11000000) >> 6, rb == (ib & 0b00110000) >> 4, cb == ib & 0b11;
    let quant: u64 = if q == 0 {
        16
    } else if q == 1 {
        return None;
    } else if q == 2 {
        24
    } else {
        return None;
    };
    let rate: u64 = if rb == 0 {
        48_000
    } else if rb == 1 {
        96_000
    } else {
        return None;
    };
    let channels = (cb + 1) as u64;
    let spf = rate / 600;
    assert(spf * quant * channels <= 160 * 24 * 4) by (nonlinear_arith)
        requires spf <= 160, quant <= 24, channels <= 4;
    let frame_size = spf * quant * channels / 8;
    Some(LpcmFormat { quant, sample_rate: rate, channels, samples_per_frame: spf, frame_size })
}

/// Whether a demuxed LPCM stream announces a format the clip decodes:
/// `lpcm_stream_format` accepts exactly these streams.
pub fn lpcm_format_known(stream_buffer: &[u8]) -> (r: bool)
    ensures
        r == (stream_buffer@.len() >= 2 && lpcm_format_spec(stream_buffer@[1]) is Some),
{
    lpcm_format_checked(stream_buffer).is_some()
}

/// The LPCM format announced at the start of a demuxed LPCM stream, as
/// `lpcm_format_spec` says of its second byte.
pub fn lpcm_stream_format(stream_buffer: &[u8]) -> (r: LpcmFormat)
    requires
        stream_buffer@.len() >= 2,
        lpcm_format_spec(stream_buffer@[1]) is Some,
    ensures
        lpcm_format_spec(stream_buffer@[1]) == Some(r),
{
    lpcm_format_checked(stream_buffer).unwrap()
}

/// Where one VOBU's share of the audio lies in the clip's audio stream.
#[derive(Debug, Clone, Copy, PartialEq, Eq)]
pub struct XAudioFrameVobuInfo {
    pub sector_start: u32,
    /// Offset of this share in the clip's audio stream.
    pub demuxed_absolute_offset: u32,
    /// Bytes of the stream's packet payloads in the VOBU.
    pub real_real_demuxed_size: u32,
    /// Those bytes less the LPCM packet headers.
    pub real_demuxed_size: u32,
    /// Bytes of this share.
    pub demuxed_size: u32,
    /// The share is `cut_front .. cut_back` of the VOBU's demuxed audio.
    pub cut_front: usize,
    pub cut_back: usize,
}

/// The views of the VOBUs of an `EVobu` list.
pub open spec fn evobu_vobus(s: Seq<EVobu>) -> Seq<VobuView> {
    s.map_values(|e: EVobu| e.v@)
}

/// A `u32` read as the `i32` with the same bits.
pub open spec fn as_i32(x: int) -> int {
    if x > i32::MAX { x - 0x1_0000_0000 } else { x }
}

/// Where the clip's audio starts: the first frame of the first VOBU's
/// stream that ends at or after the VOBU's first PTM. Gives the ticks by
/// which that frame starts early and its byte offset in the demuxed
/// stream (less the 3-byte LPCM header); (0, 0) when there is no such
/// frame. `None` on an overflow.
pub open spec fn start_spec(kus: Seq<KnowUnit>, first_ptm: u32, is_lpcm: bool, plen32: int) -> Option<(int, int)> {
    let flen = codec_ticks(is_lpcm);
    match frame_scan(kus, flen, first_ptm as int, true, false, 0, 0, 0, 0) {
        None => None,
        Some((None, _, _)) => Some((0, 0)),
        Some((Some((u, j)), _, _)) => {
            let fs = kus[u].pts + flen * j;
            let sop = as_i32(first_ptm as int) - as_i32(fs);
            let sbo = kus[u].offset + j * plen32 - if is_lpcm { 3int } else { 0int };
            if sop < i32::MIN || sop > i32::MAX || j * plen32 > u32::MAX || kus[u].offset + j * plen32 > u32::MAX
                || sbo < 0 {
                None
            } else {
                Some((sop, sbo))
            }
        },
    }
}

/// The share of VOBU `k` of `n`, which starts at offset `sz` of the clip's
/// stream: the stream's bytes in the VOBU less LPCM headers, less the
/// start offset in the first VOBU, and in the last VOBU less what does not
/// fill a whole frame of `plen32` bytes.
pub open spec fn info_spec(v: VobuView, k: int, n: int, id: u8, is_lpcm: bool, sbo: int, sz: int, plen32: int)
    -> Option<XAudioFrameVobuInfo>
{
    let sidx = stream_index(v.streams, id);
    if sidx < 0 {
        None
    } else {
        let p = v.streams[sidx].packets;
        let strip = if is_lpcm { p.abs_packet_cnt * 3 } else { 0 };
        let cut_front = if k == 0 { sbo } else { 0 };
        if strip > u32::MAX || p.total_bytes < strip {
            None
        } else {
            let rsize = p.total_bytes - strip;
            if rsize < cut_front {
                None
            } else {
                let d0 = rsize - cut_front;
                if k == n - 1 && (sz + d0 > u32::MAX || plen32 == 0 || d0 < (sz + d0) % plen32) {
                    None
                } else {
                    let tomuch = if k == n - 1 { (sz + d0) % plen32 } else { 0 };
                    Some(XAudioFrameVobuInfo {
                        sector_start: v.sector_start,
                        demuxed_absolute_offset: sz as u32,
                        real_real_demuxed_size: p.total_bytes,
                        real_demuxed_size: rsize as u32,
                        demuxed_size: (d0 - tomuch) as u32,
                        cut_front: cut_front as usize,
                        cut_back: (rsize - tomuch) as usize,
                    })
                }
            }
        }
    }
}

/// The shares of VOBUs `k ..` starting at offset `sz`, and the offset
/// after the last one.
pub open spec fn infos_from(vs: Seq<VobuView>, k: int, sz: int, id: u8, is_lpcm: bool, sbo: int, plen32: int)
    -> Option<(Seq<XAudioFrameVobuInfo>, int)>
    decreases vs.len() - k,
{
    if k < 0 || k >= vs.len() {
        Some((Seq::empty(), sz))
    } else {
        match info_spec(vs[k], k, vs.len() as int, id, is_lpcm, sbo, sz, plen32) {
            None => None,
            Some(inf) => {
                let sz2 = sz + inf.demuxed_size;
                if sz2 > u32::MAX {
                    None
                } else {
                    match infos_from(vs, k + 1, sz2, id, is_lpcm, sbo, plen32) {
                        None => None,
                        Some((rest, tot)) => Some((seq![inf] + rest, tot)),
                    }
                }
            },
        }
    }
}

proof fn lemma_infos_tile(vs: Seq<VobuView>, k: int, sz: int, id: u8, is_lpcm: bool, sbo: int, plen32: int)
    requires
        0 <= k <= vs.len(),
        0 <= sz <= u32::MAX,
        0 <= sbo <= u32::MAX,
        infos_from(vs, k, sz, id, is_lpcm, sbo, plen32) is Some,
    ensures
        ({
            let (rest, tot) = infos_from(vs, k, sz, id, is_lpcm, sbo, plen32).unwrap();
            &&& rest.len() == vs.len() - k
            &&& sz <= tot <= u32::MAX
            &&& rest.len() == 0 ==> tot == sz
            &&& rest.len() > 0 ==> rest[0].demuxed_absolute_offset == sz
                && rest.last().demuxed_absolute_offset + rest.last().demuxed_size == tot
            &&& forall|i: int, j: int| 0 <= i && j == i + 1 && j < rest.len()
                ==> #[trigger] rest[j].demuxed_absolute_offset == #[trigger] rest[i].demuxed_absolute_offset + rest[i].demuxed_size
            &&& forall|i: int| 0 <= i < rest.len() ==> #[trigger] rest[i].cut_back - rest[i].cut_front == rest[i].demuxed_size
        }),
    decreases vs.len() - k,
{
    if k < vs.len() {
        let inf = info_spec(vs[k], k, vs.len() as int, id, is_lpcm, sbo, sz, plen32).unwrap();
        let sz2 = sz + inf.demuxed_size;
        lemma_infos_tile(vs, k + 1, sz2, id, is_lpcm, sbo, plen32);
        let (rest, tot) = infos_from(vs, k + 1, sz2, id, is_lpcm, sbo, plen32).unwrap();
        let all = seq![inf] + rest;
        assert(all[0] == inf);
        assert forall|i: int| 0 < i < all.len() implies #[trigger] all[i] == rest[i - 1] by {}
        assert forall|i: int, j: int| 0 <= i && j == i + 1 && j < all.len()
            implies #[trigger] all[j].demuxed_absolute_offset == #[trigger] all[i].demuxed_absolute_offset + all[i].demuxed_size by {
            assert(all[j] == rest[j - 1]);
            if i > 0 {
                assert(all[i] == rest[i - 1]);
            }
        }
        assert forall|i: int| 0 <= i < all.len() implies #[trigger] all[i].cut_back - all[i].cut_front == all[i].demuxed_size by {
            if i > 0 {
                assert(all[i] == rest[i - 1]);
            }
        }
        if rest.len() > 0 {
            assert(all.last() == rest.last());
        }
    }
}

/// Whether `inf` is the share of VOBU `v` as to sizes: the VOBU holds the
/// stream, and the share records the VOBU's sector, its payload bytes of
/// the stream, and those bytes less the 3-byte header every LPCM packet
/// of the stream in the VOBU carries.
pub open spec fn share_sizes(v: VobuView, inf: XAudioFrameVobuInfo, id: u8, is_lpcm: bool) -> bool {
    let sidx = stream_index(v.streams, id);
    &&& sidx >= 0
    &&& inf.sector_start == v.sector_start
    &&& inf.real_real_demuxed_size == v.streams[sidx].packets.total_bytes
    &&& inf.real_demuxed_size as int == v.streams[sidx].packets.total_bytes as int
        - if is_lpcm { 3 * v.streams[sidx].packets.abs_packet_cnt as int } else { 0int }
}

proof fn lemma_infos_sizes(vs: Seq<VobuView>, k: int, sz: int, id: u8, is_lpcm: bool, sbo: int, plen32: int)
    requires
        0 <= k <= vs.len(),
        infos_from(vs, k, sz, id, is_lpcm, sbo, plen32) is Some,
    ensures
        ({
            let (rest, tot) = infos_from(vs, k, sz, id, is_lpcm, sbo, plen32).unwrap();
            &&& rest.len() == vs.len() - k
            &&& forall|i: int| 0 <= i < rest.len() ==> #[trigger] share_sizes(vs[k + i], rest[i], id, is_lpcm)
            &&& forall|i: int| 0 <= i < rest.len() && k + i != 0 && k + i != vs.len() - 1
                ==> (#[trigger] rest[i]).cut_front == 0 && rest[i].demuxed_size == rest[i].real_demuxed_size
        }),
    decreases vs.len() - k,
{
    if k < vs.len() {
        let inf = info_spec(vs[k], k, vs.len() as int, id, is_lpcm, sbo, sz, plen32).unwrap();
        let sz2 = sz + inf.demuxed_size;
        lemma_infos_sizes(vs, k + 1, sz2, id, is_lpcm, sbo, plen32);
        let (rest, tot) = infos_from(vs, k + 1, sz2, id, is_lpcm, sbo, plen32).unwrap();
        let all = seq![inf] + rest;
        assert(share_sizes(vs[k], inf, id, is_lpcm));
        assert forall|i: int| 0 <= i < all.len() implies #[trigger] share_sizes(vs[k + i], all[i], id, is_lpcm) by {
            if i > 0 {
                assert(all[i] == rest[i - 1]);
                assert(share_sizes(vs[k + 1 + (i - 1)], rest[i - 1], id, is_lpcm));
            }
        }
        assert forall|i: int| 0 <= i < all.len() && k + i != 0 && k + i != vs.len() - 1
            implies (#[trigger] all[i]).cut_front == 0 && all[i].demuxed_size == all[i].real_demuxed_size by {
            if i > 0 {
                assert(all[i] == rest[i - 1]);
            }
        }
    }
}

/// Law: each share of a clip's audio stream comes from its own VOBU, in
/// order: it records the VOBU's sector and its payload bytes of the
/// stream, and its demuxed size is those bytes less 3 header bytes for
/// every packet of the stream in the VOBU when the stream is LPCM (none
/// for AC-3). A share between the first and the last takes the VOBU's
/// demuxed bytes whole.
pub proof fn lemma_audio_layout_sizes(vs: Seq<VobuView>, id: u8, is_lpcm: bool, plen: usize)
    requires
        layout_spec(vs, id, is_lpcm, plen) is Some,
    ensures
        ({
            let (infos, _, _) = layout_spec(vs, id, is_lpcm, plen).unwrap();
            &&& infos.len() == vs.len()
            &&& forall|i: int| 0 <= i < infos.len() ==> #[trigger] share_sizes(vs[i], infos[i], id, is_lpcm)
            &&& forall|i: int| 0 < i < infos.len() - 1
                ==> (#[trigger] infos[i]).cut_front == 0 && infos[i].demuxed_size == infos[i].real_demuxed_size
        }),
{
    let plen32 = plen as int % 0x1_0000_0000;
    let kus0 = vs[0].streams[stream_index(vs[0].streams, id)].packets.know_units;
    let (sop, sbo) = start_spec(kus0, vs[0].first_ptm, is_lpcm, plen32).unwrap();
    lemma_infos_sizes(vs, 0, 0, id, is_lpcm, sbo, plen32);
    let (infos, _) = infos_from(vs, 0, 0, id, is_lpcm, sbo, plen32).unwrap();
    assert forall|i: int| 0 <= i < infos.len() implies #[trigger] share_sizes(vs[i], infos[i], id, is_lpcm) by {
        assert(share_sizes(vs[0 + i], infos[i], id, is_lpcm));
    }
}

/// The shares of a clip's audio tile its stream: the first starts at
/// offset 0, each next one where the one before ends, the last ends after
/// `frame_cnt` whole frames, and each share is the bytes between its cuts.
pub proof fn lemma_audio_layout_tiles(vs: Seq<VobuView>, id: u8, is_lpcm: bool, plen: usize)
    requires
        layout_spec(vs, id, is_lpcm, plen) is Some,
    ensures
        ({
            let (infos, frame_cnt, _) = layout_spec(vs, id, is_lpcm, plen).unwrap();
            &&& infos.len() == vs.len()
            &&& infos[0].demuxed_absolute_offset == 0
            &&& forall|i: int, j: int| 0 <= i && j == i + 1 && j < infos.len()
                ==> #[trigger] infos[j].demuxed_absolute_offset == #[trigger] infos[i].demuxed_absolute_offset + infos[i].demuxed_size
            &&& infos.last().demuxed_absolute_offset + infos.last().demuxed_size == frame_cnt * (plen as int % 0x1_0000_0000)
            &&& infos.last().demuxed_absolute_offset + infos.last().demuxed_size <= u32::MAX
            &&& shares_tile(infos)
            &&& forall|i: int| 0 <= i < infos.len() ==> #[trigger] infos[i].cut_back - infos[i].cut_front == infos[i].demuxed_size
        }),
{
    let plen32 = plen as int % 0x1_0000_0000;
    let kus0 = vs[0].streams[stream_index(vs[0].streams, id)].packets.know_units;
    let (sop, sbo) = start_spec(kus0, vs[0].first_ptm, is_lpcm, plen32).unwrap();
    lemma_infos_tile(vs, 0, 0, id, is_lpcm, sbo, plen32);
    let (infos, total) = infos_from(vs, 0, 0, id, is_lpcm, sbo, plen32).unwrap();
    assert(total == (total / plen32) * plen32) by (nonlinear_arith)
        requires plen32 > 0, total % plen32 == 0;
    assert(total / plen32 <= total) by (nonlinear_arith)
        requires plen32 > 0, total >= 0;
}

/// The audio layout of a clip.
#[derive(Debug)]
pub struct AudioLayout {
    pub infos: Vec<XAudioFrameVobuInfo>,
    pub frame_cnt: u32,
    pub pts_cutoff_start: u32,
}

/// The layout of stream `id` over the VOBUs `vs` with frames of `plen`
/// bytes: `None` where no layout can be made (a missing stream, an
/// overflow, a stream that is not a whole number of frames).
pub open spec fn layout_spec(vs: Seq<VobuView>, id: u8, is_lpcm: bool, plen: usize)
    -> Option<(Seq<XAudioFrameVobuInfo>, u32, u32)>
{
    let plen32 = plen as int % 0x1_0000_0000;
    if vs.len() == 0 || stream_index(vs[0].streams, id) < 0 {
        None
    } else {
        let kus0 = vs[0].streams[stream_index(vs[0].streams, id)].packets.know_units;
        match start_spec(kus0, vs[0].first_ptm, is_lpcm, plen32) {
            None => None,
            Some((sop, sbo)) => match infos_from(vs, 0, 0, id, is_lpcm, sbo, plen32) {
                None => None,
                Some((infos, total)) => if plen32 == 0 || total % plen32 != 0 {
                    None
                } else {
                    Some((infos, (total / plen32) as u32, (if sop < 0 { sop + 0x1_0000_0000 } else { sop }) as u32))
                },
            },
        }
    }
}

/// One VOBU's share, as `info_spec` says.
fn vobu_audio_info(v: &crate::index::Vobu, k: usize, n: usize, id: u8, is_lpcm: bool, sbo: u32, sz: u32, plen32: u32)
    -> (r: Option<XAudioFrameVobuInfo>)
    ensures
        r == info_spec(v@, k as int, n as int, id, is_lpcm, sbo as int, sz as int, plen32 as int),
{
    let sidx = match find_stream_in(&v.streams, id) {
        None => { return None; },
        Some(s) => s,
    };
    let p = &v.streams[sidx].packets;
    assert(streams_view(v.streams@)[sidx as int] == v.streams@[sidx as int]@);
    assert(p@ == v@.streams[sidx as int].packets);
    let tb = p.total_bytes;
    let strip: u32 = if is_lpcm {
        if p.abs_packet_cnt > u32::MAX / 3 {
            assert(v@.streams[sidx as int].packets.abs_packet_cnt * 3 > u32::MAX);
            assert(stream_index(v@.streams, id) == sidx);
            return None;
        }
        p.abs_packet_cnt * 3
    } else {
        0
    };
    let cut_front: u32 = if k == 0 { sbo } else { 0 };
    if tb < strip {
        return None;
    }
    let rsize = tb - strip;
    if rsize < cut_front {
        return None;
    }
    let d0 = rsize - cut_front;
    let mut d = d0;
    let mut cut_back = rsize;
    if n > 0 && k == n - 1 {
        if sz > u32::MAX - d0 || plen32 == 0 {
            return None;
        }
        let endpos = sz + d0;
        let tomuch = endpos % plen32;
        if d0 < tomuch {
            return None;
        }
        d = d0 - tomuch;
        cut_back = rsize - tomuch;
    }
    Some(XAudioFrameVobuInfo {
        sector_start: v.sector_start,
        demuxed_absolute_offset: sz,
        real_real_demuxed_size: tb,
        real_demuxed_size: rsize,
        demuxed_size: d,
        cut_front: cut_front as usize,
        cut_back: cut_back as usize,
    })
}

/// Where the audio starts, as `start_spec` says.
fn audio_start(kus: &Vec<KnowUnit>, first_ptm: u32, is_lpcm: bool, plen32: u32) -> (r: Option<(i32, u32)>)
    ensures
        match start_spec(kus@, first_ptm, is_lpcm, plen32 as int) {
            None => r is None,
            Some((sop, sbo)) => r is Some && r.unwrap().0 as int == sop && r.unwrap().1 as int == sbo,
        },
{
    let flen: u32 = if is_lpcm { LPCM_FRAME_TICKS } else { AC3_FRAME_TICKS };
    assert(flen as int == codec_ticks(is_lpcm));
    match scan_frames(kus, flen, first_ptm, true, false) {
        None => None,
        Some((None, _, _)) => Some((0, 0)),
        Some((Some((u, j)), _, _)) => {
            let a = kus[u];
            assert(a.pts + flen * j + flen <= u32::MAX);
            assert((flen as int) * (j as int) <= 4096 * 255) by (nonlinear_arith)
                requires flen <= 4096, j <= 255;
            let fs = a.pts as u64 + flen as u64 * j as u64;
            let fs32 = #[verifier::truncate] (fs as u32);
            assert(fs32 == fs);
            let x = #[verifier::truncate] (first_ptm as i32);
            let y = #[verifier::truncate] (fs32 as i32);
            assert(x as int == as_i32(first_ptm as int) && y as int == as_i32(fs32 as int)) by (bit_vector)
                requires x == first_ptm as i32, y == fs32 as i32;
            let diff = x as i64 - y as i64;
            if diff < i32::MIN as i64 || diff > i32::MAX as i64 {
                return None;
            }
            assert((j as int) * (plen32 as int) <= 255 * 0xffff_ffff) by (nonlinear_arith)
                requires j <= 255, plen32 <= 0xffff_ffff;
            let jp = j as u64 * plen32 as u64;
            if jp > u32::MAX as u64 {
                return None;
            }
            if a.offset as u64 + jp > u32::MAX as u64 {
                return None;
            }
            let off = a.offset + jp as u32;
            let sbo = if is_lpcm {
                if off < 3 {
                    return None;
                }
                off - 3
            } else {
                off
            };
            Some((diff as i32, sbo))
        },
    }
}

/// The layout of audio stream `id` over the clip's VOBUs with frames of
/// `plen` bytes, or `None`, as `layout_spec` says.
fn layout_checked(vobus: &Vec<EVobu>, id: u8, is_lpcm: bool, plen: usize) -> (r: Option<AudioLayout>)
    ensures
        match layout_spec(evobu_vobus(vobus@), id, is_lpcm, plen) {
            None => r is None,
            Some((infos, frame_cnt, cutoff)) => r is Some && r.unwrap().infos@ == infos
                && r.unwrap().frame_cnt == frame_cnt && r.unwrap().pts_cutoff_start == cutoff,
        },
{
    let ghost vs = evobu_vobus(vobus@);
    let n = vobus.len();
    if n == 0 {
        return None;
    }
    let plen32 = #[verifier::truncate] (plen as u32);
    assert(plen32 as int == plen as int % 0x1_0000_0000) by (bit_vector)
        requires plen32 == plen as u32;
    let v0 = &vobus[0].v;
    assert(v0@ == vs[0]);
    let s0 = match find_stream_in(&v0.streams, id) {
        None => { return None; },
        Some(s) => s,
    };
    assert(streams_view(v0.streams@)[s0 as int] == v0.streams@[s0 as int]@);
    let (sop, sbo) = match audio_start(&v0.streams[s0].packets.know_units, v0.first_ptm, is_lpcm, plen32) {
        None => { return None; },
        Some(x) => x,
    };
    let mut infos: Vec<XAudioFrameVobuInfo> = Vec::new();
    let mut sz: u32 = 0;
    let mut k: usize = 0;
    let ghost kus0 = vs[0].streams[stream_index(vs[0].streams, id)].packets.know_units;
    assert(kus0 == v0.streams@[s0 as int].packets.know_units@);
    while k < n
        invariant
            n == vobus@.len(),
            n > 0,
            plen32 as int == plen as int % 0x1_0000_0000,
            stream_index(vs[0].streams, id) >= 0,
            kus0 == vs[0].streams[stream_index(vs[0].streams, id)].packets.know_units,
            start_spec(kus0, vs[0].first_ptm, is_lpcm, plen32 as int) == Some((sop as int, sbo as int)),
            vs == evobu_vobus(vobus@),
            k <= n,
            infos_from(vs, 0, 0, id, is_lpcm, sbo as int, plen32 as int) == match infos_from(vs, k as int, sz as int, id, is_lpcm, sbo as int, plen32 as int) {
                None => None,
                Some((rest, tot)) => Some((infos@ + rest, tot)),
            },
        decreases n - k,
    {
        let v = &vobus[k].v;
        assert(v@ == vs[k as int]);
        let ghost before = infos@;
        let inf = match vobu_audio_info(v, k, n, id, is_lpcm, sbo, sz, plen32) {
            None => { return None; },
            Some(i) => i,
        };
        if sz > u32::MAX - inf.demuxed_size {
            return None;
        }
        infos.push(inf);
        proof {
            match infos_from(vs, k + 1, (sz + inf.demuxed_size) as int, id, is_lpcm, sbo as int, plen32 as int) {
                None => {},
                Some((rest, tot)) => {
                    assert(before + (seq![inf] + rest) =~= infos@ + rest);
                },
            }
        }
        sz = sz + inf.demuxed_size;
        k = k + 1;
    }
    assert(infos@ + Seq::<XAudioFrameVobuInfo>::empty() =~= infos@);
    if plen32 == 0 || sz % plen32 != 0 {
        return None;
    }
    let cutoff = sop as u32;
    assert(cutoff as int == (if sop < 0 { sop + 0x1_0000_0000 } else { sop as int })) by (bit_vector)
        requires cutoff == sop as u32;
    Some(AudioLayout { infos, frame_cnt: sz / plen32, pts_cutoff_start: cutoff })
}

/// Whether the audio stream `id` can be laid out over the clip's VOBUs
/// with frames of `plen` bytes: `raw_audio_frames_layout` accepts exactly
/// these inputs.
pub fn audio_layout_possible(vobus: &Vec<EVobu>, id: u8, is_lpcm: bool, plen: usize) -> (r: bool)
    ensures
        r == layout_spec(evobu_vobus(vobus@), id, is_lpcm, plen) is Some,
{
    layout_checked(vobus, id, is_lpcm, plen).is_some()
}

/// The layout of audio stream `id` over the clip's VOBUs with frames of
/// `plen` bytes, as `layout_spec` says: each VOBU's share of the demuxed
/// stream, the frame count and the ticks to cut at the start.
pub fn raw_audio_frames_layout(vobus: &Vec<EVobu>, id: u8, is_lpcm: bool, plen: usize) -> (r: AudioLayout)
    requires
        layout_spec(evobu_vobus(vobus@), id, is_lpcm, plen) is Some,
    ensures
        ({
            let (infos, frame_cnt, cutoff) = layout_spec(evobu_vobus(vobus@), id, is_lpcm, plen).unwrap();
            r.infos@ == infos && r.frame_cnt == frame_cnt && r.pts_cutoff_start == cutoff
        }),
{
    layout_checked(vobus, id, is_lpcm, plen).unwrap()
}

} // verus!

verus! {

/// What the audio filters know of a clip's audio stream; `R` reads the
/// clip's demuxed audio.
pub struct AudioFramesInfo<R> {
    pub reader: R,
    pub ac3_fingerprint: (i32, i32, i32),
    pub frame_cnt: u32,
    pub frame_length: u32,
    pub pts_cutoff_start: u32,
    pub pts_cut_end: u32,
    pub samples_per_frame: u32,
    pub lpcm_quant: u32,
    pub lpcm_sample_rate: u32,
    pub lpcm_channels: u32,
}

/// A piece of a read: bytes `start .. start + len` of the demuxed audio of
/// VOBU share `index`.
#[derive(Debug, Clone, Copy, PartialEq, Eq)]
pub struct ReadChunk {
    pub index: usize,
    pub start: usize,
    pub len: usize,
}

/// The pieces of a read of `size` bytes at offset `offset` of the clip's
/// audio into a buffer of `buf_len` bytes, going through the shares from
/// `k` on: each share holding the offset gives the bytes from there up to
/// its end or the rest of the request, and the offset moves on. `None`
/// where the read cannot go on: an end offset or a moved offset beyond
/// `u32::MAX`, a share whose cut is inverted or too short, or more bytes
/// than the buffer takes.
pub open spec fn ready_from(infos: Seq<XAudioFrameVobuInfo>, k: int, offset: int, size: int, written: int, buf_len: int)
    -> Option<Seq<ReadChunk>>
    decreases infos.len() - k,
{
    if k < 0 || k >= infos.len() {
        Some(Seq::empty())
    } else {
        let a = infos[k];
        if offset >= a.demuxed_absolute_offset && a.demuxed_size + a.demuxed_absolute_offset > u32::MAX {
            None
        } else if offset >= a.demuxed_absolute_offset && a.demuxed_size + a.demuxed_absolute_offset > offset {
            let local = offset - a.demuxed_absolute_offset;
            if a.cut_front > a.cut_back || local > a.cut_back - a.cut_front {
                None
            } else {
                let avail = a.cut_back - a.cut_front - local;
                let rs = vstd::math::min(size, avail);
                if written + rs > buf_len || offset + rs > u32::MAX {
                    None
                } else {
                    match ready_from(infos, k + 1, offset + rs, size - rs, written + rs, buf_len) {
                        None => None,
                        Some(rest) => Some(seq![ReadChunk { index: k as usize, start: (a.cut_front + local) as usize, len: rs as usize }] + rest),
                    }
                }
            }
        } else {
            ready_from(infos, k + 1, offset, size, written, buf_len)
        }
    }
}

/// The total length of a list of chunks.
pub open spec fn chunks_len(c: Seq<ReadChunk>) -> int
    decreases c.len(),
{
    if c.len() == 0 {
        0
    } else {
        c[0].len + chunks_len(c.drop_first())
    }
}

/// Where the stream of a list of shares ends.
pub open spec fn stream_end(infos: Seq<XAudioFrameVobuInfo>) -> int {
    infos.last().demuxed_absolute_offset + infos.last().demuxed_size
}

/// The shares tile a stream: each starts where the one before ends and is
/// the bytes between its cuts, and the stream ends within `u32`.
pub open spec fn shares_tile(infos: Seq<XAudioFrameVobuInfo>) -> bool {
    &&& infos.len() > 0
    &&& forall|i: int, j: int| 0 <= i && j == i + 1 && j < infos.len()
        ==> #[trigger] infos[j].demuxed_absolute_offset == #[trigger] infos[i].demuxed_absolute_offset + infos[i].demuxed_size
    &&& forall|i: int| 0 <= i < infos.len() ==> #[trigger] infos[i].cut_back - infos[i].cut_front == infos[i].demuxed_size
    &&& stream_end(infos) <= u32::MAX
}

/// Each share of a tiling ends at or before the stream's end.
proof fn lemma_share_within(infos: Seq<XAudioFrameVobuInfo>, i: int)
    requires
        shares_tile(infos),
        0 <= i < infos.len(),
    ensures
        infos[i].demuxed_absolute_offset + infos[i].demuxed_size <= stream_end(infos),
    decreases infos.len() - i,
{
    if i + 1 < infos.len() {
        lemma_share_within(infos, i + 1);
        assert(infos[i + 1].demuxed_absolute_offset == infos[i].demuxed_absolute_offset + infos[i].demuxed_size);
    }
}

/// The bytes a read from share `k` on returns, for a tiling.
pub open spec fn read_len(infos: Seq<XAudioFrameVobuInfo>, k: int, offset: int, size: int) -> int {
    if k >= infos.len() || offset < infos[k].demuxed_absolute_offset || offset >= stream_end(infos) {
        0
    } else {
        vstd::math::min(size, stream_end(infos) - offset)
    }
}

proof fn lemma_ready_from_len(infos: Seq<XAudioFrameVobuInfo>, k: int, offset: int, size: int, written: int, buf_len: int)
    requires
        shares_tile(infos),
        0 <= k <= infos.len(),
        0 <= offset <= u32::MAX,
        0 <= size,
        0 <= written,
        written + read_len(infos, k, offset, size) <= buf_len,
    ensures
        ready_from(infos, k, offset, size, written, buf_len) is Some,
        chunks_len(ready_from(infos, k, offset, size, written, buf_len).unwrap()) == read_len(infos, k, offset, size),
    decreases infos.len() - k,
{
    if k < infos.len() {
        let a = infos[k];
        lemma_share_within(infos, k);
        let end = stream_end(infos);
        if k + 1 < infos.len() {
            assert(infos[k + 1].demuxed_absolute_offset == a.demuxed_absolute_offset + a.demuxed_size);
        }
        if offset >= a.demuxed_absolute_offset && a.demuxed_size + a.demuxed_absolute_offset > offset {
            let local = offset - a.demuxed_absolute_offset;
            let avail = a.cut_back - a.cut_front - local;
            let rs = vstd::math::min(size, avail);
            assert(avail == a.demuxed_absolute_offset + a.demuxed_size - offset);
            lemma_ready_from_len(infos, k + 1, offset + rs, size - rs, written + rs, buf_len);
            let rest = ready_from(infos, k + 1, offset + rs, size - rs, written + rs, buf_len).unwrap();
            let c = ReadChunk { index: k as usize, start: (a.cut_front + local) as usize, len: rs as usize };
            assert((seq![c] + rest).drop_first() =~= rest);
            assert((seq![c] + rest)[0] == c);
        } else {
            lemma_ready_from_len(infos, k + 1, offset, size, written, buf_len);
        }
    }
}

/// Law: a read of the audio stream laid out over tiling shares returns
/// as many bytes as asked, up to the end of the stream, when the buffer
/// takes them: the pieces of the read add up to that length.
pub proof fn lemma_audio_read_length(infos: Seq<XAudioFrameVobuInfo>, offset: u32, size: u64, buf_len: usize)
    requires
        shares_tile(infos),
        infos[0].demuxed_absolute_offset == 0,
        vstd::math::min(size as int, stream_end(infos) - offset) <= buf_len,
    ensures
        ready_from(infos, 0, offset as int, size as int, 0, buf_len as int) is Some,
        chunks_len(ready_from(infos, 0, offset as int, size as int, 0, buf_len as int).unwrap())
            == if offset >= stream_end(infos) { 0 } else { vstd::math::min(size as int, stream_end(infos) - offset) },
{
    lemma_ready_from_len(infos, 0, offset as int, size as int, 0, buf_len as int);
}

/// Reads the clip's audio stream: each read demuxes the shares it touches.
pub struct AudioFrameReader<R> {
    pub reader: R,
    pub frame_vobu_info: Vec<XAudioFrameVobuInfo>,
    pub stream_id: u8,
    pub seek_offset: u64,
}

impl<R> AudioFrameReader<R> {
    /// The pieces of a read of `size` bytes at `offset` into a buffer of
    /// `buf_len` bytes, as `ready_from` says; the bytes read are their
    /// total length.
    pub fn ready_plan(&self, offset: u32, size: u64, buf_len: usize) -> (r: Vec<ReadChunk>)
        requires
            ready_from(self.frame_vobu_info@, 0, offset as int, size as int, 0, buf_len as int) is Some,
        ensures
            r@ == ready_from(self.frame_vobu_info@, 0, offset as int, size as int, 0, buf_len as int).unwrap(),
    {
        self.ready_checked(offset, size, buf_len).unwrap()
    }

    /// The pieces of a read, or `None`, as `ready_from` says.
    fn ready_checked(&self, offset: u32, size: u64, buf_len: usize) -> (r: Option<Vec<ReadChunk>>)
        ensures
            match ready_from(self.frame_vobu_info@, 0, offset as int, size as int, 0, buf_len as int) {
                None => r is None,
                Some(c) => r is Some && r.unwrap()@ == c,
            },
    {
        let infos = &self.frame_vobu_info;
        let n = infos.len();
        let mut out: Vec<ReadChunk> = Vec::new();
        let mut off: u32 = offset;
        let mut left: u64 = size;
        let mut written: usize = 0;
        let mut k: usize = 0;
        while k < n
            invariant
                n == infos@.len(),
                infos@ == self.frame_vobu_info@,
                k <= n,
                written <= buf_len,
                ready_from(infos@, 0, offset as int, size as int, 0, buf_len as int) == match ready_from(
                    infos@, k as int, off as int, left as int, written as int, buf_len as int) {
                    None => None,
                    Some(rest) => Some(out@ + rest),
                },
            decreases n - k,
        {
            let a = infos[k];
            if off >= a.demuxed_absolute_offset {
                if a.demuxed_size > u32::MAX - a.demuxed_absolute_offset {
                    assert(ready_from(infos@, k as int, off as int, left as int, written as int, buf_len as int) is None);
                    return None;
                }
                if a.demuxed_size + a.demuxed_absolute_offset > off {
                    let local = (off - a.demuxed_absolute_offset) as usize;
                    if a.cut_front > a.cut_back || local > a.cut_back - a.cut_front {
                        assert(ready_from(infos@, k as int, off as int, left as int, written as int, buf_len as int) is None);
                        return None;
                    }
                    let avail = a.cut_back - a.cut_front - local;
                    let rs: u64 = if left < avail as u64 { left } else { avail as u64 };
                    if rs > (buf_len - written) as u64 || rs > (u32::MAX - off) as u64 {
                        return None;
                    }
                    let ghost before = out@;
                    let c = ReadChunk { index: k, start: a.cut_front + local, len: rs as usize };
                    out.push(c);
                    proof {
                        match ready_from(infos@, k + 1, off + rs, left - rs, written + rs, buf_len as int) {
                            None => {},
                            Some(rest) => {
                                assert(before + (seq![c] + rest) =~= out@ + rest);
                            },
                        }
                    }
                    off = off + rs as u32;
                    left = left - rs;
                    written = written + rs as usize;
                }
            }
            k = k + 1;
        }
        assert(out@ + Seq::<ReadChunk>::empty() =~= out@);
        Some(out)
    }

    /// Whether the next read into a buffer of `buf_len` bytes can be
    /// planned, as `read_plan` needs.
    pub fn can_read(&self, buf_len: usize) -> (r: bool)
        ensures
            r == ready_from(self.frame_vobu_info@, 0, self.seek_offset as int % 0x1_0000_0000, buf_len as int, 0, buf_len as int) is Some,
    {
        let off = self.offset32();
        self.ready_checked(off, buf_len as u64, buf_len).is_some()
    }

    /// The pieces of the next read into a buffer of `buf_len` bytes: at the
    /// reader's position (taken modulo 2^32), as many bytes as the buffer holds.
    pub fn read_plan(&self, buf_len: usize) -> (r: Vec<ReadChunk>)
        requires
            ready_from(self.frame_vobu_info@, 0, self.seek_offset as int % 0x1_0000_0000, buf_len as int, 0, buf_len as int) is Some,
        ensures
            r@ == ready_from(self.frame_vobu_info@, 0, self.seek_offset as int % 0x1_0000_0000, buf_len as int, 0, buf_len as int).unwrap(),
    {
        let off = self.offset32();
        self.ready_plan(off, buf_len as u64, buf_len)
    }

    /// The reader's position modulo 2^32.
    fn offset32(&self) -> (r: u32)
        ensures
            r as int == self.seek_offset as int % 0x1_0000_0000,
    {
        let so = self.seek_offset;
        let off = #[verifier::truncate] (so as u32);
        assert(off as int == so as int % 0x1_0000_0000) by (bit_vector)
            requires off == so as u32;
        off
    }

    /// Moves the position on by the `rd` bytes a read returned, which must
    /// stay within `u64`.
    pub fn advance(&mut self, rd: u64) -> (r: u64)
        requires
            old(self).seek_offset + rd <= u64::MAX,
        ensures
            final(self).frame_vobu_info == old(self).frame_vobu_info,
            final(self).stream_id == old(self).stream_id,
            final(self).seek_offset == old(self).seek_offset + rd,
            r == final(self).seek_offset,
    {
        self.seek_offset = self.seek_offset + rd;
        self.seek_offset
    }

    /// Moves to absolute position `e`.
    pub fn seek_start(&mut self, e: u64) -> (r: u64)
        ensures
            final(self).frame_vobu_info == old(self).frame_vobu_info,
            final(self).stream_id == old(self).stream_id,
            final(self).seek_offset == e,
            r == e,
    {
        self.seek_offset = e;
        e
    }
}

} // verus!
