//! Sample arithmetic of the audio clips: how many samples and host frames a
//! clip has, which AC-3 frames a host frame decodes, which LPCM bytes it
//! reads, and how 16-bit LPCM splits into its two channels.

use vstd::prelude::*;
use vstd::slice::slice_subrange;
use crate::bytes::{be16, byteorder_read_u16};

verus! {

/// Samples per channel in one AC-3 frame: six blocks of 256.
pub const AC3_FRAME_SAMPLES: u32 = 1536;

/// liba52's channel-mode code for two front channels.
pub const A52_STEREO: i32 = 2;

/// liba52's channel-mode code for three front and two rear channels.
pub const A52_3F2R: i32 = 7;

/// liba52's flag for a low-frequency channel.
pub const A52_LFE: i32 = 16;

/// The channel sets that the AC-3 clip decodes.
#[derive(Debug, Clone, Copy, PartialEq, Eq)]
pub enum Ac3Channels {
    /// Front left and right.
    Stereo,
    /// Front left, right and centre, low frequency, side left and right.
    Surround51,
    /// Front left, right and centre, side left and right.
    Surround50,
}

/// The liba52 channel modes that the AC-3 clip decodes: stereo, 3/2 with
/// a low-frequency channel, and 3/2.
pub open spec fn a52_mode_decoded(flags: i32) -> bool {
    flags == A52_STEREO || flags == A52_3F2R + A52_LFE || flags == A52_3F2R
}

/// Whether the AC-3 clip decodes a stream with these liba52 flags.
pub fn ac3_channels_known(flags: i32) -> (r: bool)
    ensures
        r == a52_mode_decoded(flags),
{
    flags == A52_STEREO || flags == A52_3F2R + A52_LFE || flags == A52_3F2R
}

/// The channel set of an AC-3 stream whose liba52 flags are `flags`, one
/// of the modes the clip decodes.
pub fn ac3_channels(flags: i32) -> (r: Ac3Channels)
    requires
        a52_mode_decoded(flags),
    ensures
        r == Ac3Channels::Stereo <==> flags == A52_STEREO,
        r == Ac3Channels::Surround51 <==> flags == A52_3F2R + A52_LFE,
        r == Ac3Channels::Surround50 <==> flags == A52_3F2R,
{
    if flags == A52_STEREO {
        Ac3Channels::Stereo
    } else if flags == A52_3F2R + A52_LFE {
        Ac3Channels::Surround51
    } else {
        Ac3Channels::Surround50
    }
}

impl Ac3Channels {
    /// How many channels the set has.
    pub fn count(&self) -> (r: i32)
        ensures
            r == (match *self {
                Ac3Channels::Stereo => 2int,
                Ac3Channels::Surround51 => 6int,
                Ac3Channels::Surround50 => 5int,
            }),
    {
        match self {
            Ac3Channels::Stereo => 2,
            Ac3Channels::Surround51 => 6,
            Ac3Channels::Surround50 => 5,
        }
    }
}

/// Samples per channel of an AC-3 clip of `frame_cnt` frames, for a count
/// whose samples fit in `u32`, where the clip computes them.
pub fn ac3_num_samples(frame_cnt: u32) -> (r: i64)
    requires
        frame_cnt * AC3_FRAME_SAMPLES <= u32::MAX,
    ensures
        r == frame_cnt * AC3_FRAME_SAMPLES,
{
    (frame_cnt * AC3_FRAME_SAMPLES) as i64
}

/// Samples per channel of an LPCM clip: `samples_per_frame * frame_cnt`.
pub fn lpcm_num_samples(samples_per_frame: u32, frame_cnt: u32) -> (r: i64)
    requires
        samples_per_frame * frame_cnt <= i64::MAX,
    ensures
        r == samples_per_frame * frame_cnt,
{
    samples_per_frame as i64 * frame_cnt as i64
}

/// The number of host frames of `frame_samples` samples that hold
/// `num_samples` samples, the last one possibly short, taken as `i32`
/// (wrapping) as the host's clip description holds it.
pub fn clip_frame_count(num_samples: i64, frame_samples: i32) -> (r: i32)
    requires
        num_samples >= 0,
        frame_samples > 0,
        num_samples + frame_samples - 1 <= i64::MAX,
    ensures
        r == #[verifier::truncate] (((num_samples + frame_samples - 1) / (frame_samples as int)) as i32),
{
    let q: i64 = (num_samples + (frame_samples as i64 - 1)) / frame_samples as i64;
    #[verifier::truncate] (q as i32)
}

/// The byte offset of AC-3 frame `n` of a stream of `frame_length`-byte
/// frames: the frame a host frame of the raw AC-3 clip holds.
pub fn raw_frame_offset(n: i32, frame_length: u32) -> (r: u64)
    requires
        n >= 0,
    ensures
        r == n * frame_length,
{
    let a = n as u64;
    let b = frame_length as u64;
    assert(a * b <= 0x8000_0000 * 0x1_0000_0000) by (nonlinear_arith)
        requires a < 0x8000_0000, b < 0x1_0000_0000;
    a * b
}

/// The reads behind one host frame of the AC-3 clip: each names the byte
/// offset, in the clip's demuxed audio, of an AC-3 frame to decode.
#[derive(Debug, Clone, Copy, PartialEq, Eq)]
pub struct Ac3FramePlan {
    /// Samples per channel in the host frame.
    pub out_samples: i32,
    /// The frame before the first one, decoded and thrown away so that the
    /// decoder's overlap state is right; absent for the clip's first frame
    /// and when the previous host frame was the last one decoded.
    pub prime: Option<u64>,
    /// The frame whose six blocks fill the first half of the host frame.
    pub first: u64,
    /// The frame whose six blocks fill the second half; absent in the last
    /// host frame.
    pub second: Option<u64>,
}

/// What `ac3_frame_plan` gives for host frame `n`: AC-3 frame
/// `2n` and, but in the clip's last host frame, `2n + 1`, with frame
/// `2n - 1` decoded first unless `n` is 0 or follows `latest_n`. The last
/// host frame has half the samples when the clip's sample count is not a
/// multiple of the host frame's.
pub open spec fn ac3_frame_plan_spec(n: int, latest_n: int, num_frames: int, num_samples: int, frame_length: int, frame_samples: int)
    -> Ac3FramePlan
{
    let inner = n * frame_samples / (AC3_FRAME_SAMPLES as int);
    let is_last = n + 1 == num_frames;
    Ac3FramePlan {
        out_samples: (if is_last && num_samples % frame_samples != 0 { frame_samples / 2 } else { frame_samples }) as i32,
        prime: if latest_n + 1 != n && n != 0 { Some(((inner - 1) * frame_length) as u64) } else { None },
        first: (inner * frame_length) as u64,
        second: if !is_last { Some(((inner + 1) * frame_length) as u64) } else { None },
    }
}

/// Plans host frame `n` of the AC-3 clip, whose host frames hold two AC-3
/// frames each.
pub fn ac3_frame_plan(n: i32, latest_n: i32, num_frames: i32, num_samples: i64, frame_length: u32, frame_samples: i32) -> (r: Ac3FramePlan)
    requires
        frame_samples == 2 * AC3_FRAME_SAMPLES,
        0 <= n < num_frames,
        n * frame_samples <= i32::MAX,
        latest_n < i32::MAX,
    ensures
        r == ac3_frame_plan_spec(n as int, latest_n as int, num_frames as int, num_samples as int, frame_length as int, frame_samples as int),
{
    let sample_start: i32 = n * frame_samples;
    let inner: u64 = sample_start as u64 / AC3_FRAME_SAMPLES as u64;
    assert(inner == 2 * n) by (nonlinear_arith)
        requires
            sample_start == n * frame_samples,
            frame_samples == 3072,
            inner == sample_start / 1536,
            n >= 0;
    let fl = frame_length as u64;
    assert((inner + 1) * fl <= 0x20_0000 * 0x1_0000_0000) by (nonlinear_arith)
        requires
            inner < 0x20_0000,
            fl < 0x1_0000_0000;
    assert(inner * fl <= (inner + 1) * fl) by (nonlinear_arith);
    assert((inner - 1) * fl <= inner * fl) by (nonlinear_arith);
    let is_last = n + 1 == num_frames;
    let out_samples = if is_last && num_samples % frame_samples as i64 != 0 {
        frame_samples / 2
    } else {
        frame_samples
    };
    let prime = if latest_n + 1 != n && n != 0 {
        Some((inner - 1) * fl)
    } else {
        None
    };
    let second = if !is_last {
        Some((inner + 1) * fl)
    } else {
        None
    };
    Ac3FramePlan { out_samples, prime, first: inner * fl, second }
}

/// Consecutive host frames of the AC-3 clip decode consecutive AC-3
/// frames: frame `n` ends with the frame after its first, frame `n + 1`
/// starts with the one after that, and, when it primes the decoder, primes
/// it with the frame that frame `n` ended with.
pub proof fn lemma_ac3_plans_follow(n: int, latest_n: int, num_frames: int, num_samples: int, frame_length: u32, frame_samples: int)
    requires
        frame_samples == 2 * AC3_FRAME_SAMPLES,
        0 <= n,
        n + 1 < num_frames,
        (n + 1) * frame_samples <= i32::MAX,
    ensures
        ({
            let a = ac3_frame_plan_spec(n, latest_n, num_frames, num_samples, frame_length as int, frame_samples);
            let b = ac3_frame_plan_spec(n + 1, latest_n, num_frames, num_samples, frame_length as int, frame_samples);
            &&& a.second == Some((a.first + frame_length) as u64)
            &&& b.first == a.first + 2 * frame_length
            &&& latest_n != n ==> b.prime == a.second
        }),
{
    let fl = frame_length as int;
    assert(n * frame_samples / 1536 == 2 * n) by (nonlinear_arith)
        requires frame_samples == 3072, n >= 0;
    assert((n + 1) * frame_samples / 1536 == 2 * n + 2) by (nonlinear_arith)
        requires frame_samples == 3072, n >= 0;
    assert((2 * n + 3) * fl <= 0x20_0000 * 0x1_0000_0000) by (nonlinear_arith)
        requires 2 * n + 3 <= 0x20_0000, 0 <= fl < 0x1_0000_0000;
    assert(0 <= (2 * n) * fl <= (2 * n + 1) * fl <= (2 * n + 2) * fl <= (2 * n + 3) * fl) by (nonlinear_arith)
        requires n >= 0, fl >= 0;
    assert((2 * n + 1) * fl == 2 * n * fl + fl) by (nonlinear_arith);
    assert((2 * n + 2) * fl == 2 * n * fl + 2 * fl) by (nonlinear_arith);
}

/// The read behind one host frame of the LPCM clip.
#[derive(Debug, Clone, Copy, PartialEq, Eq)]
pub struct LpcmRead {
    /// Samples per channel in the host frame.
    pub samples: i64,
    /// Byte offset of the read in the clip's demuxed audio.
    pub offset: u64,
    /// Bytes to read.
    pub len: usize,
}

/// Bytes per sample of all channels together.
pub open spec fn lpcm_block_bytes(quant: int, channels: int) -> int {
    quant * channels / 8
}

/// What `lpcm_read_plan` gives for host frame `n`: the samples from
/// `n * frame_samples` on, up to a full host frame or the clip's end, as
/// bytes of the interleaved stream.
pub open spec fn lpcm_read_spec(n: int, num_samples: int, frame_samples: int, quant: int, channels: int) -> LpcmRead {
    let start = n * frame_samples;
    let want = if frame_samples <= num_samples - start { frame_samples } else { num_samples - start };
    let bpb = lpcm_block_bytes(quant, channels);
    LpcmRead { samples: want as i64, offset: (start * bpb) as u64, len: (want * bpb) as usize }
}

/// Plans host frame `n` of the LPCM clip, whose samples are 16 bits wide
/// (the only width the clip decodes).
pub fn lpcm_read_plan(n: i32, num_samples: i64, frame_samples: i32, quant: u32, channels: u32) -> (r: LpcmRead)
    requires
        quant == 16,
        frame_samples > 0,
        0 <= n,
        n * frame_samples <= i32::MAX,
        n * frame_samples < num_samples,
        quant * channels <= u32::MAX,
        (if frame_samples <= num_samples - n * frame_samples { frame_samples as int } else { num_samples - n * frame_samples })
            * lpcm_block_bytes(quant as int, channels as int) <= usize::MAX,
    ensures
        r == lpcm_read_spec(n as int, num_samples as int, frame_samples as int, quant as int, channels as int),
{
    let start: i32 = n * frame_samples;
    let left: i64 = num_samples - start as i64;
    let want: i64 = if (frame_samples as i64) <= left { frame_samples as i64 } else { left };
    let bpb: u32 = (quant * channels) / 8;
    let s64 = start as u64;
    let b64 = bpb as u64;
    assert(s64 * b64 <= 0x8000_0000 * 0x2000_0000) by (nonlinear_arith)
        requires
            s64 < 0x8000_0000,
            b64 < 0x2000_0000;
    let offset = s64 * b64;
    let len = want as usize * bpb as usize;
    LpcmRead { samples: want, offset, len }
}

/// Consecutive host frames of the LPCM clip read consecutive bytes: a
/// full host frame is followed by the read that starts where its own
/// ended, and the samples of all host frames add up to the clip's.
pub proof fn lemma_lpcm_reads_follow(n: int, num_samples: int, frame_samples: int, channels: int)
    requires
        0 < frame_samples <= i32::MAX,
        0 <= n,
        (n + 1) * frame_samples < num_samples,
        0 <= channels,
        16 * channels <= u32::MAX,
        (n + 2) * frame_samples * lpcm_block_bytes(16, channels) <= usize::MAX,
    ensures
        ({
            let a = lpcm_read_spec(n, num_samples, frame_samples, 16, channels);
            let b = lpcm_read_spec(n + 1, num_samples, frame_samples, 16, channels);
            &&& a.samples == frame_samples
            &&& b.offset == a.offset + a.len
            &&& (n + 1) * frame_samples + b.samples <= num_samples
        }),
{
    let bpb = lpcm_block_bytes(16, channels);
    assert(bpb == 2 * channels);
    assert(0 <= n * frame_samples * bpb <= (n + 1) * frame_samples * bpb <= (n + 2) * frame_samples * bpb) by (nonlinear_arith)
        requires n >= 0, frame_samples > 0, bpb >= 0;
    assert((n + 1) * frame_samples * bpb == n * frame_samples * bpb + frame_samples * bpb) by (nonlinear_arith);
    assert(frame_samples * bpb <= (n + 1) * frame_samples * bpb) by (nonlinear_arith)
        requires n >= 0, frame_samples > 0, bpb >= 0;
    assert(n * frame_samples * bpb == (n * frame_samples) * bpb) by (nonlinear_arith);
    assert((n + 1) * frame_samples * bpb == ((n + 1) * frame_samples) * bpb) by (nonlinear_arith);
    assert((n + 1) * frame_samples == n * frame_samples + frame_samples) by (nonlinear_arith);
    assert((n + 2) * frame_samples == (n + 1) * frame_samples + frame_samples) by (nonlinear_arith);
    assert(((n + 1) * frame_samples) * bpb + frame_samples * bpb == (n + 2) * frame_samples * bpb) by (nonlinear_arith);
    let wb = if frame_samples <= num_samples - (n + 1) * frame_samples { frame_samples } else { num_samples - (n + 1) * frame_samples };
    assert(0 < wb <= frame_samples);
    assert(wb * bpb <= frame_samples * bpb) by (nonlinear_arith)
        requires 0 < wb <= frame_samples, bpb >= 0;
    assert(0 <= wb * bpb) by (nonlinear_arith)
        requires 0 < wb, bpb >= 0;
}

/// The two channels of `samples` frames of 16-bit stereo LPCM: each frame
/// is four bytes, the left sample then the right, each most significant
/// byte first.
pub fn lpcm16_stereo(data: &[u8], samples: usize) -> (r: (Vec<u16>, Vec<u16>))
    requires
        4 * samples <= data@.len(),
    ensures
        r.0@.len() == samples,
        r.1@.len() == samples,
        forall|i: int| 0 <= i < samples ==> #[trigger] r.0@[i] as int == be16(data@[4 * i], data@[4 * i + 1]),
        forall|i: int| 0 <= i < samples ==> #[trigger] r.1@[i] as int == be16(data@[4 * i + 2], data@[4 * i + 3]),
{
    let mut left: Vec<u16> = Vec::new();
    let mut right: Vec<u16> = Vec::new();
    let mut i: usize = 0;
    let dl = data.len();
    while i < samples
        invariant
            i <= samples,
            dl == data@.len(),
            4 * samples <= data@.len(),
            left@.len() == i,
            right@.len() == i,
            forall|q: int| 0 <= q < i ==> #[trigger] left@[q] as int == be16(data@[4 * q], data@[4 * q + 1]),
            forall|q: int| 0 <= q < i ==> #[trigger] right@[q] as int == be16(data@[4 * q + 2], data@[4 * q + 3]),
        decreases samples - i,
    {
        let l = byteorder_read_u16(slice_subrange(data, 4 * i, 4 * i + 2));
        let r = byteorder_read_u16(slice_subrange(data, 4 * i + 2, 4 * i + 4));
        left.push(l);
        right.push(r);
        i = i + 1;
    }
    (left, right)
}

} // verus!
