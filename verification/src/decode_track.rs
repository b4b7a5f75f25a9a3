//! Following libmpeg2 through the video of one VOBU: which decoder states
//! are expected when, which frame of the index each decoded picture is,
//! and whether it is shown or blanked.

use vstd::prelude::*;
use crate::bytes::StreamError;
use crate::index::{Frame, FrameType, Gop, GopView, gops_view};
use crate::filters::blank_frame;

verus! {

/// libmpeg2's `mpeg2_parse` states.
pub const STATE_BUFFER: u32 = 0;
pub const STATE_SEQUENCE: u32 = 1;
pub const STATE_SEQUENCE_REPEATED: u32 = 2;
pub const STATE_GOP: u32 = 3;
pub const STATE_PICTURE: u32 = 4;
pub const STATE_SLICE: u32 = 7;
pub const STATE_END: u32 = 8;
pub const STATE_INVALID: u32 = 9;
pub const STATE_INVALID_END: u32 = 10;
pub const STATE_SEQUENCE_MODIFIED: u32 = 11;

/// libmpeg2's picture flags.
pub const PIC_FLAG_TOP_FIELD_FIRST: u32 = 8;
pub const PIC_FLAG_PROGRESSIVE_FRAME: u32 = 16;
pub const PIC_FLAG_REPEAT_FIRST_FIELD: u32 = 256;

/// What the decoder reports of a picture header.
#[derive(Debug, Clone, Copy, PartialEq, Eq)]
pub struct PictureInfo {
    pub temporal_reference: u8,
    pub tff: bool,
    pub rff: bool,
    pub prog: bool,
}

/// A decoder state as the tracker sees it.
#[derive(Debug, Clone, Copy, PartialEq, Eq)]
pub enum DecodeEvent {
    /// A sequence header, new, repeated or modified.
    Sequence,
    Gop,
    Picture(PictureInfo),
    /// A picture is decoded (a slice state, or the end of the stream).
    Slice,
    /// The decoder wants more data.
    Buffer,
}

/// The picture fields from libmpeg2's temporal reference (its low eight
/// bits are kept) and flags.
pub fn picture_info(temporal_reference: u32, flags: u32) -> (r: PictureInfo)
    ensures
        r.temporal_reference == temporal_reference % 256,
        r.tff == (flags / 8 % 2 == 1),
        r.rff == (flags / 256 % 2 == 1),
        r.prog == (flags / 16 % 2 == 1),
{
    let tr = #[verifier::truncate] (temporal_reference as u8);
    assert(tr as int == temporal_reference as int % 256) by (bit_vector)
        requires tr == temporal_reference as u8;
    assert(((flags & PIC_FLAG_TOP_FIELD_FIRST) != 0) == (flags / 8 % 2 == 1)) by (bit_vector);
    assert(((flags & PIC_FLAG_REPEAT_FIRST_FIELD) != 0) == (flags / 256 % 2 == 1)) by (bit_vector);
    assert(((flags & PIC_FLAG_PROGRESSIVE_FRAME) != 0) == (flags / 16 % 2 == 1)) by (bit_vector);
    PictureInfo {
        temporal_reference: tr,
        tff: (flags & PIC_FLAG_TOP_FIELD_FIRST) != 0,
        rff: (flags & PIC_FLAG_REPEAT_FIRST_FIELD) != 0,
        prog: (flags & PIC_FLAG_PROGRESSIVE_FRAME) != 0,
    }
}

/// The decoder states that the video of a DVD brings.
pub open spec fn known_state(state: u32) -> bool {
    state == STATE_SEQUENCE || state == STATE_SEQUENCE_REPEATED || state == STATE_SEQUENCE_MODIFIED
        || state == STATE_GOP || state == STATE_PICTURE || state == STATE_SLICE || state == STATE_END
        || state == STATE_BUFFER
}

/// Whether the decoder state is one the video of a DVD brings, as
/// `event_of` needs.
pub fn is_known_state(state: u32) -> (r: bool)
    ensures
        r == known_state(state),
{
    event_checked(state, PictureInfo { temporal_reference: 0, tff: false, rff: false, prog: false }).is_some()
}

/// The event of a decoder state that the video of a DVD brings.
pub fn event_of(state: u32, pic: PictureInfo) -> (r: DecodeEvent)
    requires
        known_state(state),
    ensures
        (state == STATE_SEQUENCE || state == STATE_SEQUENCE_REPEATED || state == STATE_SEQUENCE_MODIFIED)
            ==> r == DecodeEvent::Sequence,
        state == STATE_GOP ==> r == DecodeEvent::Gop,
        state == STATE_PICTURE ==> r == DecodeEvent::Picture(pic),
        (state == STATE_SLICE || state == STATE_END) ==> r == DecodeEvent::Slice,
        state == STATE_BUFFER ==> r == DecodeEvent::Buffer,
{
    event_checked(state, pic).unwrap()
}

/// The event of a decoder state; `None` for the states that the video of
/// a DVD must not bring.
fn event_checked(state: u32, pic: PictureInfo) -> (r: Option<DecodeEvent>)
    ensures
        (state == STATE_SEQUENCE || state == STATE_SEQUENCE_REPEATED || state == STATE_SEQUENCE_MODIFIED)
            ==> r == Some(DecodeEvent::Sequence),
        state == STATE_GOP ==> r == Some(DecodeEvent::Gop),
        state == STATE_PICTURE ==> r == Some(DecodeEvent::Picture(pic)),
        (state == STATE_SLICE || state == STATE_END) ==> r == Some(DecodeEvent::Slice),
        state == STATE_BUFFER ==> r == Some(DecodeEvent::Buffer),
        !(state == STATE_SEQUENCE || state == STATE_SEQUENCE_REPEATED || state == STATE_SEQUENCE_MODIFIED
            || state == STATE_GOP || state == STATE_PICTURE || state == STATE_SLICE || state == STATE_END
            || state == STATE_BUFFER) ==> r is None,
{
    if state == STATE_SEQUENCE || state == STATE_SEQUENCE_REPEATED || state == STATE_SEQUENCE_MODIFIED {
        Some(DecodeEvent::Sequence)
    } else if state == STATE_GOP {
        Some(DecodeEvent::Gop)
    } else if state == STATE_PICTURE {
        Some(DecodeEvent::Picture(pic))
    } else if state == STATE_SLICE || state == STATE_END {
        Some(DecodeEvent::Slice)
    } else if state == STATE_BUFFER {
        Some(DecodeEvent::Buffer)
    } else {
        None
    }
}

/// Whether feeding the previous VOBU's video to prime the decoder stops
/// at this state: when it wants data, ends or fails.
pub fn priming_stops(state: u32) -> (r: bool)
    ensures
        r == (state == STATE_BUFFER || state == STATE_END || state == STATE_INVALID || state == STATE_INVALID_END),
{
    state == STATE_BUFFER || state == STATE_END || state == STATE_INVALID || state == STATE_INVALID_END
}

/// What to do after a decoder state.
#[derive(Debug, Clone, Copy, PartialEq, Eq)]
pub enum DecodeStep {
    /// Ask the decoder for its next state.
    Continue,
    /// The decoder holds a picture: it is frame `slice` of GOP `gop` in
    /// decode order and the `decode_index`-th picture of the VOBU; `blank`
    /// says it is shown black.
    Emit { gop: usize, slice: usize, decode_index: u8, blank: bool },
    /// The VOBU is decoded.
    Done,
}

/// Where the tracking of a VOBU's decode stands: the header state (0
/// before the first sequence header, 1 after one, 2 after a GOP header or
/// a decoded picture, 3 after a picture header), the GOPs begun, the
/// picture headers and decoded pictures of the current GOP, and the
/// pictures decoded in all.
#[derive(Debug, Clone, Copy, PartialEq, Eq)]
pub struct DecodeTracker {
    pub statey: u8,
    pub gop_number: usize,
    pub pic_idx: usize,
    pub slice_idx: usize,
    pub decoded: u8,
}

/// The frames of the current GOP, when there is one.
pub open spec fn current_frames(t: DecodeTracker, gops: Seq<GopView>) -> Option<Seq<Frame>> {
    if 1 <= t.gop_number <= gops.len() {
        Some(gops[t.gop_number - 1].frames)
    } else {
        None
    }
}

/// Whether decoded frame `slice` of a GOP is blanked, as the tracker
/// decides it: only for an open GOP without a previous VOBU, and then when
/// it is shown before the leading frame, which must be an I frame.
pub open spec fn blank_spec(frames: Seq<Frame>, slice: int, rebuf: bool) -> Option<bool> {
    if !rebuf {
        Some(false)
    } else if frames.len() == 0 || frames[0].frametype != FrameType::I {
        None
    } else {
        Some(frames[slice].temporal_reference < frames[0].temporal_reference)
    }
}

/// One decoder state for the VOBU whose GOPs are `gops`; `rebuf` tells an
/// open first GOP without a previous VOBU. Every state out of order, a
/// picture that differs from the index, or a count out of range is
/// `Malformed`.
pub open spec fn step_spec(t: DecodeTracker, gops: Seq<GopView>, ev: DecodeEvent, rebuf: bool)
    -> Result<(DecodeTracker, DecodeStep), StreamError>
{
    match ev {
        DecodeEvent::Sequence => {
            let ok = if t.gop_number == 0 {
                t.statey == 0
            } else {
                current_frames(t, gops) is Some && t.pic_idx == current_frames(t, gops).unwrap().len()
                    && t.slice_idx == current_frames(t, gops).unwrap().len()
            };
            if !ok || t.gop_number == usize::MAX {
                Err(StreamError::Malformed)
            } else {
                Ok((DecodeTracker { statey: 1, gop_number: (t.gop_number + 1) as usize, pic_idx: 0, slice_idx: 0, ..t }, DecodeStep::Continue))
            }
        },
        DecodeEvent::Gop => if t.statey != 1 {
            Err(StreamError::Malformed)
        } else {
            Ok((DecodeTracker { statey: 2, ..t }, DecodeStep::Continue))
        },
        DecodeEvent::Picture(p) => match current_frames(t, gops) {
            None => Err(StreamError::Malformed),
            Some(frames) => if t.statey != 2 || t.pic_idx >= frames.len() {
                Err(StreamError::Malformed)
            } else {
                let oy = frames[t.pic_idx as int];
                if oy.real_temporal_reference != p.temporal_reference || oy.tff != p.tff || oy.rff != p.rff
                    || oy.prog != p.prog {
                    Err(StreamError::Malformed)
                } else {
                    Ok((DecodeTracker { statey: 3, pic_idx: (t.pic_idx + 1) as usize, ..t }, DecodeStep::Continue))
                }
            },
        },
        DecodeEvent::Slice => match current_frames(t, gops) {
            None => Err(StreamError::Malformed),
            Some(frames) => if t.slice_idx == frames.len() {
                Ok((t, DecodeStep::Done))
            } else if t.slice_idx > frames.len() || t.statey != 3 || t.decoded == 255 {
                Err(StreamError::Malformed)
            } else {
                match blank_spec(frames, t.slice_idx as int, rebuf) {
                    None => Err(StreamError::Malformed),
                    Some(blank) => Ok((
                        DecodeTracker { statey: 2, slice_idx: (t.slice_idx + 1) as usize, decoded: (t.decoded + 1) as u8, ..t },
                        DecodeStep::Emit { gop: (t.gop_number - 1) as usize, slice: t.slice_idx, decode_index: t.decoded, blank },
                    )),
                }
            },
        },
        DecodeEvent::Buffer => Ok((t, DecodeStep::Done)),
    }
}

/// Whether the decode ended where it should: within a GOP of the VOBU
/// whose pictures were all seen and decoded.
pub open spec fn finish_spec(t: DecodeTracker, gops: Seq<GopView>) -> bool {
    match current_frames(t, gops) {
        None => false,
        Some(frames) => t.pic_idx == frames.len() && t.slice_idx == frames.len(),
    }
}

/// The picture fields that the index recorded for a frame.
pub open spec fn picture_of(f: Frame) -> PictureInfo {
    PictureInfo { temporal_reference: f.real_temporal_reference, tff: f.tff, rff: f.rff, prog: f.prog }
}

/// Steps `2j` and `2j + 1` of a run.
pub open spec fn step_pair(sts: Seq<DecodeStep>, j: int) -> (DecodeStep, DecodeStep) {
    (sts[2 * j], sts[2 * j + 1])
}

/// The decoder states that the frames `k ..` of a GOP bring: each
/// frame's picture header, then its decoded picture.
pub open spec fn gop_events_from(frames: Seq<Frame>, k: int) -> Seq<DecodeEvent>
    decreases frames.len() - k,
{
    if k < 0 || k >= frames.len() {
        Seq::empty()
    } else {
        seq![DecodeEvent::Picture(picture_of(frames[k])), DecodeEvent::Slice] + gop_events_from(frames, k + 1)
    }
}

/// A run of decoder states, step after step: the last tracker and the
/// steps, or the first error.
pub open spec fn run_spec(t: DecodeTracker, gops: Seq<GopView>, evs: Seq<DecodeEvent>, rebuf: bool)
    -> Result<(DecodeTracker, Seq<DecodeStep>), StreamError>
    decreases evs.len(),
{
    if evs.len() == 0 {
        Ok((t, Seq::empty()))
    } else {
        match step_spec(t, gops, evs[0], rebuf) {
            Err(e) => Err(e),
            Ok((t2, st)) => match run_spec(t2, gops, evs.drop_first(), rebuf) {
                Err(e) => Err(e),
                Ok((t3, sts)) => Ok((t3, seq![st] + sts)),
            },
        }
    }
}

/// Law: when the decoder brings the pictures of the current GOP as the
/// index recorded them, from frame `k` on, each one's header then its
/// picture, the tracker emits those frames in decode order, each once,
/// with consecutive decode indices and the blanking `blank_spec` gives,
/// and ends with the GOP complete.
pub proof fn lemma_gop_decodes_in_order(t: DecodeTracker, gops: Seq<GopView>, frames: Seq<Frame>, k: int, rebuf: bool)
    requires
        current_frames(t, gops) == Some(frames),
        frames.len() <= usize::MAX,
        t.statey == 2,
        0 <= k <= frames.len(),
        t.pic_idx == k,
        t.slice_idx == k,
        t.decoded + (frames.len() - k) <= 255,
        rebuf ==> frames.len() > 0 && frames[0].frametype == FrameType::I,
    ensures
        run_spec(t, gops, gop_events_from(frames, k), rebuf) is Ok,
        ({
            let (t2, sts) = run_spec(t, gops, gop_events_from(frames, k), rebuf).unwrap();
            &&& sts.len() == 2 * (frames.len() - k)
            &&& forall|j: int| 0 <= j < frames.len() - k ==> #[trigger] step_pair(sts, j) == (DecodeStep::Continue,
                DecodeStep::Emit {
                    gop: (t.gop_number - 1) as usize,
                    slice: (k + j) as usize,
                    decode_index: (t.decoded + j) as u8,
                    blank: blank_spec(frames, k + j, rebuf).unwrap(),
                })
            &&& t2.gop_number == t.gop_number
            &&& t2.pic_idx == frames.len() && t2.slice_idx == frames.len()
            &&& finish_spec(t2, gops)
        }),
    decreases frames.len() - k,
{
    if k < frames.len() {
        let evs = gop_events_from(frames, k);
        let p = picture_of(frames[k]);
        let t1 = DecodeTracker { statey: 3, pic_idx: (t.pic_idx + 1) as usize, ..t };
        assert(step_spec(t, gops, DecodeEvent::Picture(p), rebuf) == Ok::<(DecodeTracker, DecodeStep), StreamError>((t1, DecodeStep::Continue)));
        let blank = blank_spec(frames, k, rebuf).unwrap();
        let t2 = DecodeTracker { statey: 2, slice_idx: (t1.slice_idx + 1) as usize, decoded: (t1.decoded + 1) as u8, ..t1 };
        let em = DecodeStep::Emit { gop: (t.gop_number - 1) as usize, slice: t.slice_idx, decode_index: t.decoded, blank };
        assert(current_frames(t1, gops) == Some(frames));
        assert(step_spec(t1, gops, DecodeEvent::Slice, rebuf) == Ok::<(DecodeTracker, DecodeStep), StreamError>((t2, em)));
        lemma_gop_decodes_in_order(t2, gops, frames, k + 1, rebuf);
        let rest = gop_events_from(frames, k + 1);
        assert(evs[0] == DecodeEvent::Picture(p));
        assert(evs.drop_first()[0] == DecodeEvent::Slice);
        assert(evs.drop_first().drop_first() =~= rest);
        let (t3, sts3) = run_spec(t2, gops, rest, rebuf).unwrap();
        assert(run_spec(t1, gops, evs.drop_first(), rebuf) == Ok::<(DecodeTracker, Seq<DecodeStep>), StreamError>((t3, seq![em] + sts3)));
        let all = seq![DecodeStep::Continue] + (seq![em] + sts3);
        assert(run_spec(t, gops, evs, rebuf) == Ok::<(DecodeTracker, Seq<DecodeStep>), StreamError>((t3, all)));
        assert forall|j: int| 0 <= j < frames.len() - k implies #[trigger] step_pair(all, j) == (DecodeStep::Continue,
            DecodeStep::Emit {
                gop: (t.gop_number - 1) as usize,
                slice: (k + j) as usize,
                decode_index: (t.decoded + j) as u8,
                blank: blank_spec(frames, k + j, rebuf).unwrap(),
            }) by {
            if j > 0 {
                assert(step_pair(sts3, j - 1) == step_pair(all, j));
            }
        }
    } else {
        assert(gop_events_from(frames, k) =~= Seq::<DecodeEvent>::empty());
    }
}

impl DecodeTracker {
    /// The tracker before the first state.
    pub fn new() -> (r: DecodeTracker)
        ensures
            r == (DecodeTracker { statey: 0, gop_number: 0, pic_idx: 0, slice_idx: 0, decoded: 0 }),
    {
        DecodeTracker { statey: 0, gop_number: 0, pic_idx: 0, slice_idx: 0, decoded: 0 }
    }

    fn frames_of<'a>(&self, gops: &'a Vec<Gop>) -> (r: Option<&'a Vec<Frame>>)
        ensures
            match current_frames(*self, gops_view(gops@)) {
                None => r is None,
                Some(f) => r is Some && r.unwrap()@ == f,
            },
    {
        if self.gop_number >= 1 && self.gop_number <= gops.len() {
            Some(&gops[self.gop_number - 1].frames)
        } else {
            None
        }
    }

    /// Whether the tracker takes decoder state `ev`: the state comes in
    /// order and agrees with the index, as `step` needs.
    pub fn can_step(&self, gops: &Vec<Gop>, ev: DecodeEvent, rebuf: bool) -> (r: bool)
        ensures
            r == step_spec(*self, gops_view(gops@), ev, rebuf) is Ok,
    {
        let mut t = *self;
        t.step_checked(gops, ev, rebuf).is_ok()
    }

    /// Takes one decoder state into account, as `step_spec` says, for a
    /// state that comes in order and agrees with the index.
    pub fn step(&mut self, gops: &Vec<Gop>, ev: DecodeEvent, rebuf: bool) -> (r: DecodeStep)
        requires
            step_spec(*old(self), gops_view(gops@), ev, rebuf) is Ok,
        ensures
            step_spec(*old(self), gops_view(gops@), ev, rebuf) == Ok::<(DecodeTracker, DecodeStep), StreamError>((*final(self), r)),
    {
        self.step_checked(gops, ev, rebuf).unwrap()
    }

    /// Takes one decoder state into account, as `step_spec` says; on an
    /// error the tracker is unchanged.
    fn step_checked(&mut self, gops: &Vec<Gop>, ev: DecodeEvent, rebuf: bool) -> (r: Result<DecodeStep, StreamError>)
        ensures
            match step_spec(*old(self), gops_view(gops@), ev, rebuf) {
                Err(e) => r == Err::<DecodeStep, StreamError>(e) && *final(self) == *old(self),
                Ok((t, s)) => r == Ok::<DecodeStep, StreamError>(s) && *final(self) == t,
            },
    {
        match ev {
            DecodeEvent::Sequence => {
                if self.gop_number == 0 {
                    if self.statey != 0 {
                        return Err(StreamError::Malformed);
                    }
                } else {
                    match self.frames_of(gops) {
                        None => { return Err(StreamError::Malformed); },
                        Some(frames) => {
                            if self.pic_idx != frames.len() || self.slice_idx != frames.len() {
                                return Err(StreamError::Malformed);
                            }
                        },
                    }
                }
                if self.gop_number == usize::MAX {
                    return Err(StreamError::Malformed);
                }
                self.statey = 1;
                self.gop_number = self.gop_number + 1;
                self.pic_idx = 0;
                self.slice_idx = 0;
                Ok(DecodeStep::Continue)
            },
            DecodeEvent::Gop => {
                if self.statey != 1 {
                    return Err(StreamError::Malformed);
                }
                self.statey = 2;
                Ok(DecodeStep::Continue)
            },
            DecodeEvent::Picture(p) => {
                let frames = match self.frames_of(gops) {
                    None => { return Err(StreamError::Malformed); },
                    Some(f) => f,
                };
                if self.statey != 2 || self.pic_idx >= frames.len() {
                    return Err(StreamError::Malformed);
                }
                let oy = frames[self.pic_idx];
                if oy.real_temporal_reference != p.temporal_reference || oy.tff != p.tff || oy.rff != p.rff
                    || oy.prog != p.prog {
                    return Err(StreamError::Malformed);
                }
                self.statey = 3;
                self.pic_idx = self.pic_idx + 1;
                Ok(DecodeStep::Continue)
            },
            DecodeEvent::Slice => {
                let frames = match self.frames_of(gops) {
                    None => { return Err(StreamError::Malformed); },
                    Some(f) => f,
                };
                if self.slice_idx == frames.len() {
                    return Ok(DecodeStep::Done);
                }
                if self.slice_idx > frames.len() || self.statey != 3 || self.decoded == 255 {
                    return Err(StreamError::Malformed);
                }
                if rebuf {
                    if frames.len() == 0 {
                        return Err(StreamError::Malformed);
                    }
                    match frames[0].frametype {
                        FrameType::I => {},
                        _ => { return Err(StreamError::Malformed); },
                    }
                }
                let blank = blank_frame(frames, self.slice_idx, rebuf);
                let step = DecodeStep::Emit {
                    gop: self.gop_number - 1,
                    slice: self.slice_idx,
                    decode_index: self.decoded,
                    blank,
                };
                self.statey = 2;
                self.slice_idx = self.slice_idx + 1;
                self.decoded = self.decoded + 1;
                Ok(step)
            },
            DecodeEvent::Buffer => Ok(DecodeStep::Done),
        }
    }

    /// Whether the decode ended where it should, as `finish_spec` says.
    pub fn finish(&self, gops: &Vec<Gop>) -> (r: bool)
        ensures
            r == finish_spec(*self, gops_view(gops@)),
    {
        match self.frames_of(gops) {
            None => false,
            Some(frames) => self.pic_idx == frames.len() && self.slice_idx == frames.len(),
        }
    }
}

} // verus!
