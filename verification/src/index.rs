//! The index of a video title set: per VOBU, its GOPs and frames, its
//! audio streams and where it starts on the disc.

use vstd::prelude::*;
use crate::mpeg2video::SequenceHeader;

verus! {

/// Coding type of a picture.
#[derive(Debug, Clone, Copy, PartialEq, Eq)]
pub enum FrameType {
    I,
    P,
    B,
}

impl Default for FrameType {
    fn default() -> (r: FrameType)
        ensures
            r == FrameType::I,
    {
        FrameType::I
    }
}

/// One coded picture, in decode order.
#[derive(Debug, Clone, Copy, PartialEq, Eq)]
pub struct Frame {
    pub frametype: FrameType,
    pub real_temporal_reference: u8,
    pub temporal_reference: u8,
    pub tff: bool,
    pub rff: bool,
    pub prog: bool,
}

impl Frame {
    /// An I frame with every other field zero or false.
    pub open spec fn spec_empty() -> Frame {
        Frame {
            frametype: FrameType::I,
            real_temporal_reference: 0,
            temporal_reference: 0,
            tff: false,
            rff: false,
            prog: false,
        }
    }

    pub fn empty() -> (f: Frame)
        ensures
            f == Frame::spec_empty(),
    {
        Frame {
            frametype: FrameType::I,
            real_temporal_reference: 0,
            temporal_reference: 0,
            tff: false,
            rff: false,
            prog: false,
        }
    }
}

impl Default for Frame {
    fn default() -> (f: Frame)
        ensures
            f == Frame::spec_empty(),
    {
        Frame::empty()
    }
}

/// A group of pictures with the sequence header that precedes it.
#[derive(Debug)]
pub struct Gop {
    pub sequence_header: SequenceHeader,
    pub closed: bool,
    pub prog_sequence: bool,
    /// In decode order.
    pub frames: Vec<Frame>,
}

/// What a `Gop` holds, with its frames as a sequence.
pub struct GopView {
    pub sequence_header: SequenceHeader,
    pub closed: bool,
    pub prog_sequence: bool,
    pub frames: Seq<Frame>,
}

impl View for Gop {
    type V = GopView;

    open spec fn view(&self) -> GopView {
        GopView {
            sequence_header: self.sequence_header,
            closed: self.closed,
            prog_sequence: self.prog_sequence,
            frames: self.frames@,
        }
    }
}

impl Gop {
    pub fn empty() -> (g: Gop)
        ensures
            g@ == (GopView {
                sequence_header: SequenceHeader { width: 0, height: 0, ar_num: 0, ar_den: 0, fr_num: 0, fr_den: 0 },
                closed: false,
                prog_sequence: false,
                frames: Seq::empty(),
            }),
    {
        Gop { sequence_header: SequenceHeader::zeroed(), closed: false, prog_sequence: false, frames: Vec::new() }
    }
}

impl Clone for Gop {
    fn clone(&self) -> (g: Gop)
        ensures
            g@ == self@,
    {
        let frames = self.frames.clone();
        assert(frames@ =~= self.frames@);
        Gop {
            sequence_header: self.sequence_header,
            closed: self.closed,
            prog_sequence: self.prog_sequence,
            frames,
        }
    }
}

impl Default for Gop {
    fn default() -> (g: Gop)
        ensures
            g@.frames == Seq::<Frame>::empty(),
            !g@.closed,
            !g@.prog_sequence,
    {
        Gop::empty()
    }
}

/// The views of a sequence of GOPs.
pub open spec fn gops_view(s: Seq<Gop>) -> Seq<GopView> {
    s.map_values(|g: Gop| g@)
}

/// An audio access unit whose first byte lies in a packet: where it starts
/// in the demuxed stream, the packet's PTS and its frame count.
#[derive(Debug, Clone, Copy, PartialEq, Eq)]
pub struct KnowUnit {
    pub offset: u32,
    pub pts: u32,
    pub frame_cnt: u8,
}

/// The packets of one audio stream within a VOBU.
#[derive(Debug)]
pub struct AudioStreamPackets {
    pub know_units: Vec<KnowUnit>,
    pub total_bytes: u32,
    pub starting_frames: u32,
    pub abs_packet_cnt: u32,
}

pub struct AudioStreamPacketsView {
    pub know_units: Seq<KnowUnit>,
    pub total_bytes: u32,
    pub starting_frames: u32,
    pub abs_packet_cnt: u32,
}

impl View for AudioStreamPackets {
    type V = AudioStreamPacketsView;

    open spec fn view(&self) -> AudioStreamPacketsView {
        AudioStreamPacketsView {
            know_units: self.know_units@,
            total_bytes: self.total_bytes,
            starting_frames: self.starting_frames,
            abs_packet_cnt: self.abs_packet_cnt,
        }
    }
}

impl AudioStreamPackets {
    pub fn empty() -> (p: AudioStreamPackets)
        ensures
            p@ == (AudioStreamPacketsView { know_units: Seq::empty(), total_bytes: 0, starting_frames: 0, abs_packet_cnt: 0 }),
    {
        AudioStreamPackets { know_units: Vec::new(), total_bytes: 0, starting_frames: 0, abs_packet_cnt: 0 }
    }
}

impl Clone for AudioStreamPackets {
    fn clone(&self) -> (p: AudioStreamPackets)
        ensures
            p@ == self@,
    {
        let know_units = self.know_units.clone();
        assert(know_units@ =~= self.know_units@);
        AudioStreamPackets {
            know_units,
            total_bytes: self.total_bytes,
            starting_frames: self.starting_frames,
            abs_packet_cnt: self.abs_packet_cnt,
        }
    }
}

impl Default for AudioStreamPackets {
    fn default() -> (p: AudioStreamPackets)
        ensures
            p@ == (AudioStreamPacketsView { know_units: Seq::empty(), total_bytes: 0, starting_frames: 0, abs_packet_cnt: 0 }),
    {
        AudioStreamPackets::empty()
    }
}

/// One audio stream of a VOBU (frame lengths in 90 kHz ticks: AC-3 2880,
/// DTS 960, LPCM 150).
#[derive(Debug)]
pub struct Stream {
    pub id: u8,
    pub first_ptm: u32,
    pub packets: AudioStreamPackets,
}

pub struct StreamView {
    pub id: u8,
    pub first_ptm: u32,
    pub packets: AudioStreamPacketsView,
}

impl View for Stream {
    type V = StreamView;

    open spec fn view(&self) -> StreamView {
        StreamView { id: self.id, first_ptm: self.first_ptm, packets: self.packets@ }
    }
}

impl Clone for Stream {
    fn clone(&self) -> (s: Stream)
        ensures
            s@ == self@,
    {
        Stream { id: self.id, first_ptm: self.first_ptm, packets: self.packets.clone() }
    }
}

/// The views of a sequence of streams.
pub open spec fn streams_view(s: Seq<Stream>) -> Seq<StreamView> {
    s.map_values(|x: Stream| x@)
}

/// VOB and cell number of a VOBU.
#[derive(Debug, Clone, Copy, PartialEq, Eq)]
pub struct VobCell {
    pub vob: u16,
    pub cell: u8,
}

/// One video object unit.
#[derive(Debug)]
pub struct Vobu {
    pub sector_start: u32,
    pub gops: Vec<Gop>,
    pub vobcell: VobCell,
    pub first_ptm: u32,
    pub last_ptm: u32,
    pub streams: Vec<Stream>,
    pub mpeg2_video_size: u32,
    pub mpeg2_has_seq_end: bool,
}

pub struct VobuView {
    pub sector_start: u32,
    pub gops: Seq<GopView>,
    pub vobcell: VobCell,
    pub first_ptm: u32,
    pub last_ptm: u32,
    pub streams: Seq<StreamView>,
    pub mpeg2_video_size: u32,
    pub mpeg2_has_seq_end: bool,
}

impl View for Vobu {
    type V = VobuView;

    open spec fn view(&self) -> VobuView {
        VobuView {
            sector_start: self.sector_start,
            gops: gops_view(self.gops@),
            vobcell: self.vobcell,
            first_ptm: self.first_ptm,
            last_ptm: self.last_ptm,
            streams: streams_view(self.streams@),
            mpeg2_video_size: self.mpeg2_video_size,
            mpeg2_has_seq_end: self.mpeg2_has_seq_end,
        }
    }
}

/// A VOBU with nothing in it.
pub open spec fn empty_vobu_view() -> VobuView {
    VobuView {
        sector_start: 0,
        gops: Seq::empty(),
        vobcell: VobCell { vob: 0, cell: 0 },
        first_ptm: 0,
        last_ptm: 0,
        streams: Seq::empty(),
        mpeg2_video_size: 0,
        mpeg2_has_seq_end: false,
    }
}

impl Vobu {
    pub fn empty() -> (v: Vobu)
        ensures
            v@ == empty_vobu_view(),
    {
        let v = Vobu {
            sector_start: 0,
            gops: Vec::new(),
            vobcell: VobCell { vob: 0, cell: 0 },
            first_ptm: 0,
            last_ptm: 0,
            streams: Vec::new(),
            mpeg2_video_size: 0,
            mpeg2_has_seq_end: false,
        };
        assert(v@.gops =~= Seq::<GopView>::empty());
        assert(v@.streams =~= Seq::<StreamView>::empty());
        v
    }
}

impl Clone for Vobu {
    fn clone(&self) -> (v: Vobu)
        ensures
            v@ == self@,
    {
        let gops = self.gops.clone();
        let streams = self.streams.clone();
        assert(gops_view(gops@) =~= gops_view(self.gops@));
        assert(streams_view(streams@) =~= streams_view(self.streams@));
        Vobu {
            sector_start: self.sector_start,
            gops,
            vobcell: self.vobcell,
            first_ptm: self.first_ptm,
            last_ptm: self.last_ptm,
            streams,
            mpeg2_video_size: self.mpeg2_video_size,
            mpeg2_has_seq_end: self.mpeg2_has_seq_end,
        }
    }
}

impl Default for Vobu {
    fn default() -> (v: Vobu)
        ensures
            v@ == empty_vobu_view(),
    {
        Vobu::empty()
    }
}

/// The views of a sequence of VOBUs.
pub open spec fn vobus_view(s: Seq<Vobu>) -> Seq<VobuView> {
    s.map_values(|v: Vobu| v@)
}

/// The index of one title set.
#[derive(Debug)]
pub struct IndexedVts {
    pub vobus: Vec<Vobu>,
    pub total_size_blocks: u32,
}

pub struct IndexedVtsView {
    pub vobus: Seq<VobuView>,
    pub total_size_blocks: u32,
}

impl View for IndexedVts {
    type V = IndexedVtsView;

    open spec fn view(&self) -> IndexedVtsView {
        IndexedVtsView { vobus: vobus_view(self.vobus@), total_size_blocks: self.total_size_blocks }
    }
}

impl Clone for IndexedVts {
    fn clone(&self) -> (x: IndexedVts)
        ensures
            x@ == self@,
    {
        let vobus = self.vobus.clone();
        assert(vobus_view(vobus@) =~= vobus_view(self.vobus@));
        IndexedVts { vobus, total_size_blocks: self.total_size_blocks }
    }
}

} // verus!
