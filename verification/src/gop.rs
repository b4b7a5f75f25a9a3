//! Splitting the demuxed MPEG-2 video of a VOBU into GOPs and frames.

use vstd::prelude::*;
use crate::bytes::{ByteCursor, StreamError};
use crate::index::{Frame, FrameType, Gop, GopView, gops_view};
use crate::mpeg2video::{
    Extension, SequenceHeader, read_extension_header, group_of_pictures_header, picture_header,
    read_sequence_header, spec_extension_header, spec_group_of_pictures_header, spec_picture_header,
    spec_sequence_header,
};

verus! {

/// Where the scan of a video stream stands: the GOPs already closed, the
/// one being filled, the header state (0 nothing yet, 1 after a sequence
/// header, 2 after its extension, 3 after a GOP header, then one more for
/// each picture header and each picture extension) and whether a sequence
/// end code was seen.
pub struct ScanState {
    pub gops: Seq<GopView>,
    pub current: GopView,
    pub statey: int,
    pub has_seq_end: bool,
}

/// The state before the first byte.
pub open spec fn scan_start() -> ScanState {
    ScanState {
        gops: Seq::empty(),
        current: GopView {
            sequence_header: SequenceHeader { width: 0, height: 0, ar_num: 0, ar_den: 0, fr_num: 0, fr_den: 0 },
            closed: false,
            prog_sequence: false,
            frames: Seq::empty(),
        },
        statey: 0,
        has_seq_end: false,
    }
}

/// The frame type of a picture coding type.
pub open spec fn frame_type_of(picture_type: u8) -> Option<FrameType> {
    if picture_type == 1 {
        Some(FrameType::I)
    } else if picture_type == 2 {
        Some(FrameType::P)
    } else if picture_type == 3 {
        Some(FrameType::B)
    } else {
        None
    }
}

/// A start code `00 00 01` begins at `ii`.
pub open spec fn start_code_at(d: Seq<u8>, ii: int) -> bool {
    d[ii] == 0 && d[ii + 1] == 0 && d[ii + 2] == 1
}

/// What the byte at `ii` does to the scan: nothing unless a start code
/// begins there; then the header after it, read from `ii + 4`, updates the
/// state. A picture header needs an odd state, a GOP header state 2, a
/// sequence extension state 1 and a picture extension an even state of at
/// least 4; a broken GOP or an unknown picture type stops the scan.
pub open spec fn scan_step(d: Seq<u8>, ii: int, s: ScanState) -> Result<ScanState, StreamError> {
    if !start_code_at(d, ii) {
        Ok(s)
    } else {
        let st = d[ii + 3];
        let p = ii + 4;
        if st == 0x00 {
            if s.statey % 2 != 1 {
                Err(StreamError::Malformed)
            } else {
                match spec_picture_header(d, p) {
                    Err(e) => Err(e),
                    Ok(pic) => match frame_type_of(pic.picture_type) {
                        None => Err(StreamError::Malformed),
                        Some(ft) => {
                            let tr = pic.temporal_reference as u8;
                            let f = Frame {
                                frametype: ft,
                                real_temporal_reference: tr,
                                temporal_reference: tr,
                                tff: false,
                                rff: false,
                                prog: false,
                            };
                            Ok(ScanState {
                                current: GopView { frames: s.current.frames.push(f), ..s.current },
                                statey: s.statey + 1,
                                ..s
                            })
                        },
                    },
                }
            }
        } else if st == 0xB8 {
            if s.statey != 2 {
                Err(StreamError::Malformed)
            } else {
                match spec_group_of_pictures_header(d, p) {
                    Err(e) => Err(e),
                    Ok(g) => if g.broken {
                        Err(StreamError::Malformed)
                    } else {
                        Ok(ScanState {
                            current: GopView { closed: g.closed, frames: Seq::empty(), ..s.current },
                            statey: 3,
                            ..s
                        })
                    },
                }
            }
        } else if st == 0xB3 {
            match spec_sequence_header(d, p) {
                Err(e) => Err(e),
                Ok(seq) => Ok(ScanState {
                    gops: if s.statey != 0 { s.gops.push(s.current) } else { s.gops },
                    current: GopView { sequence_header: seq, ..s.current },
                    statey: 1,
                    ..s
                }),
            }
        } else if st == 0xB5 {
            match spec_extension_header(d, p) {
                Err(e) => Err(e),
                Ok(None) => Ok(s),
                Ok(Some(Extension::Sequence { progressive_sequence })) => if s.statey != 1 {
                    Err(StreamError::Malformed)
                } else {
                    Ok(ScanState {
                        current: GopView { prog_sequence: progressive_sequence, ..s.current },
                        statey: 2,
                        ..s
                    })
                },
                Ok(Some(Extension::Picture { tff, rff, prog })) => if !(s.statey % 2 == 0 && s.statey >= 4) {
                    Err(StreamError::Malformed)
                } else {
                    let frames = s.current.frames;
                    let last = frames.last();
                    Ok(ScanState {
                        current: GopView {
                            frames: frames.update(frames.len() - 1, Frame { tff, rff, prog, ..last }),
                            ..s.current
                        },
                        statey: s.statey + 1,
                        ..s
                    })
                },
            }
        } else if st == 0xB7 {
            Ok(ScanState { has_seq_end: true, ..s })
        } else {
            Ok(s)
        }
    }
}

/// The scan from byte `ii` to the last byte at which a start code fits.
pub open spec fn scan_from(d: Seq<u8>, ii: int, s: ScanState) -> Result<ScanState, StreamError>
    decreases d.len() - ii,
{
    if ii < 0 || ii + 3 >= d.len() {
        Ok(s)
    } else {
        match scan_step(d, ii, s) {
            Err(e) => Err(e),
            Ok(s2) => scan_from(d, ii + 1, s2),
        }
    }
}

/// The GOPs of a VOBU's video and whether it holds a sequence end code.
/// The video must begin with a sequence header start code.
pub open spec fn gopalise(d: Seq<u8>) -> Result<(Seq<GopView>, bool), StreamError> {
    if d.len() < 4 || !(d[0] == 0 && d[1] == 0 && d[2] == 1 && d[3] == 0xB3) {
        Err(StreamError::Malformed)
    } else {
        match scan_from(d, 0, scan_start()) {
            Err(e) => Err(e),
            Ok(s) => Ok((s.gops.push(s.current), s.has_seq_end)),
        }
    }
}

/// The frame type that the picture coding type bits (5-3) of the second
/// picture header byte `b` name, per ISO/IEC 13818-2: `001` I, `010` P,
/// `011` B.
pub open spec fn coded_frame_type(b: u8) -> Option<FrameType> {
    if (b & 0x38) == 0x08 {
        Some(FrameType::I)
    } else if (b & 0x38) == 0x10 {
        Some(FrameType::P)
    } else if (b & 0x38) == 0x18 {
        Some(FrameType::B)
    } else {
        None
    }
}

/// Law: a picture start code `00 00 01 00` at `ii` adds one frame to the
/// GOP being filled, and nothing else to it: a frame of the type its
/// picture coding type names (I, P or B; the scan stops on any other),
/// whose temporal reference is the header's ten-bit one taken modulo 256,
/// and which the scan does not yet call field or progressive.
pub proof fn lemma_picture_adds_frame(d: Seq<u8>, ii: int, s: ScanState)
    requires
        0 <= ii,
        ii + 3 < d.len(),
        start_code_at(d, ii),
        d[ii + 3] == 0x00,
        scan_step(d, ii, s) is Ok,
    ensures
        ({
            let t = scan_step(d, ii, s)->Ok_0;
            let f = t.current.frames.last();
            &&& ii + 6 <= d.len()
            &&& coded_frame_type(d[ii + 5]) is Some
            &&& t.current.frames.len() == s.current.frames.len() + 1
            &&& t.current.frames.subrange(0, s.current.frames.len() as int) == s.current.frames
            &&& Some(f.frametype) == coded_frame_type(d[ii + 5])
            &&& f.temporal_reference as int == (d[ii + 4] as int * 4 + d[ii + 5] as int / 64) % 256
            &&& f.real_temporal_reference == f.temporal_reference
            &&& !f.tff && !f.rff && !f.prog
            &&& t.gops == s.gops
            &&& t.statey == s.statey + 1
        }),
{
    let b = d[ii + 5];
    let a = d[ii + 4];
    let x: u16 = (a as int * 4 + b as int / 64) as u16;
    assert(a as int * 4 + b as int / 64 < 0x1_0000);
    assert(x == a as int * 4 + b as int / 64);
    assert(((b & 0x38) == 0x08 <==> b / 8 % 8 == 1) && ((b & 0x38) == 0x10 <==> b / 8 % 8 == 2)
        && ((b & 0x38) == 0x18 <==> b / 8 % 8 == 3) && (x as u8) as int == x as int % 256) by (bit_vector);
    let t = scan_step(d, ii, s)->Ok_0;
    assert(t.current.frames.subrange(0, s.current.frames.len() as int) =~= s.current.frames);
}

/// A sequence end code `00 00 01 B7` begins at `j`.
pub open spec fn seq_end_at(d: Seq<u8>, j: int) -> bool {
    start_code_at(d, j) && d[j + 3] == 0xB7
}

/// A scan that succeeds has seen a sequence end exactly when it started
/// with one seen or a sequence end code begins at one of its bytes.
proof fn lemma_scan_seq_end(d: Seq<u8>, ii: int, s: ScanState)
    requires
        0 <= ii,
        scan_from(d, ii, s) is Ok,
    ensures
        scan_from(d, ii, s)->Ok_0.has_seq_end <==> (s.has_seq_end
            || exists|j: int| ii <= j && j + 3 < d.len() && #[trigger] seq_end_at(d, j)),
    decreases d.len() - ii,
{
    if ii + 3 >= d.len() {
    } else {
        let s2 = scan_step(d, ii, s)->Ok_0;
        assert(s2.has_seq_end == (s.has_seq_end || seq_end_at(d, ii)));
        lemma_scan_seq_end(d, ii + 1, s2);
        if exists|j: int| ii <= j && j + 3 < d.len() && #[trigger] seq_end_at(d, j) {
            let j = choose|j: int| ii <= j && j + 3 < d.len() && #[trigger] seq_end_at(d, j);
            if j != ii {
                assert(ii + 1 <= j && j + 3 < d.len() && seq_end_at(d, j));
            }
        }
    }
}

/// The video of a VOBU holds a sequence end exactly when a sequence end
/// code `00 00 01 B7` begins at one of its bytes.
pub proof fn lemma_gopalise_seq_end(d: Seq<u8>)
    requires
        gopalise(d) is Ok,
    ensures
        gopalise(d)->Ok_0.1 <==> exists|j: int| 0 <= j && j + 3 < d.len() && #[trigger] seq_end_at(d, j),
{
    lemma_scan_seq_end(d, 0, scan_start());
}

/// The exec form of `ScanState`.
struct Scanner {
    gops: Vec<Gop>,
    current: Gop,
    statey: u64,
    has_seq_end: bool,
}

impl Scanner {
    spec fn state(&self) -> ScanState {
        ScanState {
            gops: gops_view(self.gops@),
            current: self.current@,
            statey: self.statey as int,
            has_seq_end: self.has_seq_end,
        }
    }

    /// Takes the byte at `ii` into account, as `scan_step` says.
    fn step(&mut self, video_data: &[u8], ii: usize) -> (r: Result<(), StreamError>)
        requires
            ii + 3 < video_data@.len(),
            old(self).statey <= ii + 3,
            old(self).statey >= 4 ==> old(self).current.frames@.len() > 0,
        ensures
            final(self).statey <= ii + 4,
            final(self).statey >= 4 ==> final(self).current.frames@.len() > 0,
            match scan_step(video_data@, ii as int, old(self).state()) {
                Err(e) => r == Err::<(), StreamError>(e),
                Ok(s1) => r is Ok && final(self).state() == s1,
            },
    {
        let ghost s0 = self.state();
        if !(video_data[ii] == 0 && video_data[ii + 1] == 0 && video_data[ii + 2] == 1) {
            return Ok(());
        }
        let st = video_data[ii + 3];
        let mut b = ByteCursor::new(video_data);
        b.set_position(ii + 4);
        if st == 0x00 {
            if self.statey % 2 != 1 {
                return Err(StreamError::Malformed);
            }
            let pics = picture_header(&mut b)?;
            let ft = if pics.picture_type == 1 {
                FrameType::I
            } else if pics.picture_type == 2 {
                FrameType::P
            } else if pics.picture_type == 3 {
                FrameType::B
            } else {
                return Err(StreamError::Malformed);
            };
            let tr = #[verifier::truncate] (pics.temporal_reference as u8);
            self.current.frames.push(Frame {
                frametype: ft,
                real_temporal_reference: tr,
                temporal_reference: tr,
                tff: false,
                rff: false,
                prog: false,
            });
            self.statey = self.statey + 1;
        } else if st == 0xB8 {
            if self.statey != 2 {
                return Err(StreamError::Malformed);
            }
            let gop = group_of_pictures_header(&mut b)?;
            if gop.broken {
                return Err(StreamError::Malformed);
            }
            self.statey = 3;
            self.current.closed = gop.closed;
            self.current.frames.clear();
        } else if st == 0xB3 {
            let seq = read_sequence_header(&mut b)?;
            if self.statey != 0 {
                let g = self.current.clone();
                self.gops.push(g);
                assert(gops_view(self.gops@) =~= s0.gops.push(s0.current));
            }
            self.statey = 1;
            self.current.sequence_header = seq;
        } else if st == 0xB5 {
            let e = read_extension_header(&mut b)?;
            match e {
                None => {},
                Some(Extension::Sequence { progressive_sequence }) => {
                    if self.statey != 1 {
                        return Err(StreamError::Malformed);
                    }
                    self.current.prog_sequence = progressive_sequence;
                    self.statey = 2;
                },
                Some(Extension::Picture { tff, rff, prog }) => {
                    if !(self.statey % 2 == 0 && self.statey >= 4) {
                        return Err(StreamError::Malformed);
                    }
                    let ll = self.current.frames.len();
                    let mut cf = self.current.frames[ll - 1];
                    cf.tff = tff;
                    cf.rff = rff;
                    cf.prog = prog;
                    self.current.frames.set(ll - 1, cf);
                    self.statey = self.statey + 1;
                },
            }
        } else if st == 0xB7 {
            self.has_seq_end = true;
        }
        Ok(())
    }
}

pub struct Gopaliser {}

impl Gopaliser {
    /// Splits demuxed video, which begins with a sequence header start code,
    /// into GOPs, with the frames of each in decode order.
    pub fn doit(video_data: &[u8]) -> (r: Result<(Vec<Gop>, bool), StreamError>)
        requires
            video_data@.len() >= 4,
            video_data@[0] == 0 && video_data@[1] == 0 && video_data@[2] == 1 && video_data@[3] == 0xB3,
        ensures
            match gopalise(video_data@) {
                Err(e) => r is Err && r->Err_0 == e,
                Ok((gops, seq_end)) => r is Ok && gops_view(r->Ok_0.0@) == gops && r->Ok_0.1 == seq_end,
            },
    {
        let len = video_data.len();
        let ghost d = video_data@;
        let mut sc = Scanner { gops: Vec::new(), current: Gop::empty(), statey: 0, has_seq_end: false };
        assert(gops_view(sc.gops@) =~= Seq::<GopView>::empty());
        assert(sc.state() == scan_start());
        let mut ii: usize = 0;
        while ii + 3 < len
            invariant
                len == d.len(),
                d == video_data@,
                len >= 4 && d[0] == 0 && d[1] == 0 && d[2] == 1 && d[3] == 0xB3,
                ii + 3 <= len,
                sc.statey <= ii + 3,
                sc.statey >= 4 ==> sc.current.frames@.len() > 0,
                scan_from(d, 0, scan_start()) == scan_from(d, ii as int, sc.state()),
            decreases len - ii,
        {
            let ghost before = sc.state();
            match sc.step(video_data, ii) {
                Err(e) => {
                    assert(scan_from(d, ii as int, before) == Err::<ScanState, StreamError>(e));
                    return Err(e);
                },
                Ok(()) => {},
            }
            ii = ii + 1;
        }
        let ghost sfin = sc.state();
        assert(scan_from(d, ii as int, sfin) == Ok::<ScanState, StreamError>(sfin));
        let last = sc.current.clone();
        let mut gops = sc.gops;
        gops.push(last);
        assert(gops_view(gops@) =~= sfin.gops.push(sfin.current));
        Ok((gops, sc.has_seq_end))
    }
}

} // verus!
