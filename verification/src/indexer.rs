//! Building the index of a title set pack by pack: VOBUs from navigation
//! packets, audio stream packet statistics and GOP structure of the video.

use vstd::prelude::*;
use crate::bytes::{ByteCursor, StreamError, be32};
use crate::gop::{Gopaliser, gopalise};
use crate::index::{
    AudioStreamPackets, AudioStreamPacketsView, Gop, GopView, IndexedVts, IndexedVtsView, KnowUnit,
    Stream, StreamView, VobCell, Vobu, VobuView, empty_vobu_view, gops_view, streams_view,
    vobus_view,
};
use crate::pack::{PackEvent, SECTOR_SIZE, parse_pack, parse_pack_spec};
use crate::retime::{retime_gop, retime_gops, retime_ok, retimed};

verus! {

/// What the indexer holds between packs.
pub struct IndexerView {
    pub current: VobuView,
    pub vobus: Seq<VobuView>,
    pub video: Seq<u8>,
    pub seen_pci: bool,
}

/// The state before the first pack.
pub open spec fn indexer_start() -> IndexerView {
    IndexerView { current: empty_vobu_view(), vobus: Seq::empty(), video: Seq::empty(), seen_pci: false }
}

/// Closes the current VOBU: records its video size (modulo 2^32), splits
/// its video into GOPs with repaired temporal references when there is
/// any, appends it and starts an empty one.
pub open spec fn finalize_spec(s: IndexerView) -> Result<IndexerView, StreamError> {
    let cur = VobuView { mpeg2_video_size: (s.video.len() % 0x1_0000_0000) as u32, ..s.current };
    if s.video.len() == 0 {
        Ok(IndexerView { current: empty_vobu_view(), vobus: s.vobus.push(cur), ..s })
    } else {
        match gopalise(s.video) {
            Err(e) => Err(e),
            Ok((gops, seq_end)) => match retime_gops(gops) {
                None => Err(StreamError::Malformed),
                Some(g2) => Ok(IndexerView {
                    current: empty_vobu_view(),
                    vobus: s.vobus.push(VobuView { gops: g2, mpeg2_has_seq_end: seq_end, ..cur }),
                    video: Seq::empty(),
                    ..s
                }),
            },
        }
    }
}

/// The first stream with this id, as `Iterator::find` gives it, or -1.
pub open spec fn stream_index(s: Seq<StreamView>, id: u8) -> int
    decreases s.len(),
{
    if s.len() == 0 {
        -1
    } else {
        let r = stream_index(s.drop_last(), id);
        if r >= 0 {
            r
        } else if s.last().id == id {
            s.len() - 1
        } else {
            -1
        }
    }
}

/// `stream_index` is -1 or the index of a stream with that id.
pub proof fn lemma_stream_index_bounds(s: Seq<StreamView>, id: u8)
    ensures
        -1 <= stream_index(s, id) < s.len(),
        stream_index(s, id) >= 0 ==> s[stream_index(s, id)].id == id,
    decreases s.len(),
{
    if s.len() > 0 {
        lemma_stream_index_bounds(s.drop_last(), id);
    }
}

/// A match in a prefix is the match of the whole sequence.
pub proof fn lemma_stream_index_prefix(s: Seq<StreamView>, id: u8, m: int)
    requires
        0 <= m <= s.len(),
        stream_index(s.subrange(0, m), id) >= 0,
    ensures
        stream_index(s, id) == stream_index(s.subrange(0, m), id),
    decreases s.len(),
{
    if s.len() == m {
        assert(s.subrange(0, m) =~= s);
    } else {
        assert(s.drop_last().subrange(0, m) =~= s.subrange(0, m));
        lemma_stream_index_prefix(s.drop_last(), id, m);
    }
}

/// The streams after one audio packet: the stream is added when new (its
/// first PTM is the packet's PTS, which it must have), its packet count,
/// frame count and byte count grow, and when an access unit starts in the
/// packet it is recorded with the packet's PTS. `None` when a PTS is missing
/// or a `u32` count overflows.
pub open spec fn audio_update(
    streams: Seq<StreamView>,
    id: u8,
    frame_cnt: u8,
    first_acc_unit: u16,
    data_len: usize,
    pts: Option<u32>,
) -> Option<Seq<StreamView>> {
    let idx = stream_index(streams, id);
    if idx < 0 && pts is None {
        None
    } else {
        let s2 = if idx < 0 {
            streams.push(StreamView {
                id,
                first_ptm: pts.unwrap(),
                packets: AudioStreamPacketsView { know_units: Seq::empty(), total_bytes: 0, starting_frames: 0, abs_packet_cnt: 0 },
            })
        } else {
            streams
        };
        let k = if idx < 0 { streams.len() as int } else { idx };
        let p = s2[k].packets;
        let dl = data_len as int % 0x1_0000_0000;
        if p.abs_packet_cnt + 1 > u32::MAX || p.starting_frames + frame_cnt > u32::MAX
            || p.total_bytes + dl > u32::MAX {
            None
        } else if first_acc_unit != 0 && (p.total_bytes + first_acc_unit > u32::MAX || pts is None) {
            None
        } else {
            let ku = if first_acc_unit != 0 {
                p.know_units.push(KnowUnit {
                    offset: (p.total_bytes + first_acc_unit - 1) as u32,
                    pts: pts.unwrap(),
                    frame_cnt,
                })
            } else {
                p.know_units
            };
            Some(s2.update(k, StreamView {
                packets: AudioStreamPacketsView {
                    know_units: ku,
                    total_bytes: (p.total_bytes + dl) as u32,
                    starting_frames: (p.starting_frames + frame_cnt) as u32,
                    abs_packet_cnt: (p.abs_packet_cnt + 1) as u32,
                },
                ..s2[k]
            }))
        }
    }
}

/// Law: an audio packet of stream `id` adds to that stream alone (a new
/// stream goes last). Its bytes are appended to the stream's demuxed data
/// of the VOBU, so the byte count grows by the payload length; an access
/// unit starting in it is recorded at its byte position in that data: the
/// bytes of all earlier packets of the stream plus `first_acc_unit - 1`.
pub proof fn lemma_audio_update_offsets(
    streams: Seq<StreamView>,
    id: u8,
    frame_cnt: u8,
    first_acc_unit: u16,
    data_len: usize,
    pts: Option<u32>,
)
    requires
        audio_update(streams, id, frame_cnt, first_acc_unit, data_len, pts) is Some,
    ensures
        ({
            let s2 = audio_update(streams, id, frame_cnt, first_acc_unit, data_len, pts).unwrap();
            let idx = stream_index(streams, id);
            let k = if idx < 0 { streams.len() as int } else { idx };
            let before = if idx < 0 { 0int } else { streams[idx].packets.total_bytes as int };
            let kus = if idx < 0 { Seq::<KnowUnit>::empty() } else { streams[idx].packets.know_units };
            let now = s2[k].packets;
            &&& s2.len() == if idx < 0 { streams.len() + 1int } else { streams.len() as int }
            &&& s2[k].id == id
            &&& forall|j: int| 0 <= j < streams.len() && j != k ==> #[trigger] s2[j] == streams[j]
            &&& now.total_bytes == before + data_len as int % 0x1_0000_0000
            &&& now.abs_packet_cnt == (if idx < 0 { 0int } else { streams[idx].packets.abs_packet_cnt as int }) + 1
            &&& first_acc_unit == 0 ==> now.know_units == kus
            &&& first_acc_unit != 0 ==> {
                &&& now.know_units.len() == kus.len() + 1
                &&& now.know_units.subrange(0, kus.len() as int) == kus
                &&& now.know_units.last().offset == before + first_acc_unit - 1
                &&& now.know_units.last().frame_cnt == frame_cnt
                &&& pts == Some(now.know_units.last().pts)
            }
        }),
{
    lemma_stream_index_bounds(streams, id);
    let idx = stream_index(streams, id);
    if first_acc_unit != 0 {
        let s2 = audio_update(streams, id, frame_cnt, first_acc_unit, data_len, pts).unwrap();
        let k = if idx < 0 { streams.len() as int } else { idx };
        let kus = if idx < 0 { Seq::<KnowUnit>::empty() } else { streams[idx].packets.know_units };
        assert(s2[k].packets.know_units.subrange(0, kus.len() as int) =~= kus);
    }
}

/// One event of a pack at byte position `crnt` of the title set.
pub open spec fn apply_event(s: IndexerView, e: PackEvent, d: Seq<u8>, crnt: int) -> Result<IndexerView, StreamError> {
    match e {
        PackEvent::NavPci { first_ptm } => {
            let s1 = if s.seen_pci { finalize_spec(s) } else { Ok(s) };
            match s1 {
                Err(x) => Err(x),
                Ok(t) => Ok(IndexerView {
                    current: VobuView {
                        first_ptm,
                        sector_start: ((crnt / 2048) % 0x1_0000_0000) as u32,
                        ..t.current
                    },
                    seen_pci: true,
                    ..t
                }),
            }
        },
        PackEvent::NavDsi { vob, cell } => Ok(IndexerView {
            current: VobuView { vobcell: VobCell { vob, cell }, ..s.current },
            ..s
        }),
        PackEvent::Audio { id, frame_cnt, first_acc_unit, data_len, pts } =>
            match audio_update(s.current.streams, id, frame_cnt, first_acc_unit, data_len, pts) {
                None => Err(StreamError::Malformed),
                Some(st) => Ok(IndexerView { current: VobuView { streams: st, ..s.current }, ..s }),
            },
        PackEvent::Video { start, end } => Ok(IndexerView { video: s.video + d.subrange(start as int, end as int), ..s }),
    }
}

/// The events of a pack, in order.
pub open spec fn apply_events(s: IndexerView, evs: Seq<PackEvent>, d: Seq<u8>, crnt: int) -> Result<IndexerView, StreamError>
    decreases evs.len(),
{
    if evs.len() == 0 {
        Ok(s)
    } else {
        match apply_event(s, evs[0], d, crnt) {
            Err(x) => Err(x),
            Ok(t) => apply_events(t, evs.drop_first(), d, crnt),
        }
    }
}

/// The pack at the start of `d`, which lies at byte `crnt` of the title
/// set: the new state and the pack's length.
pub open spec fn index_pack_spec(s: IndexerView, d: Seq<u8>, crnt: int) -> Result<(IndexerView, int), StreamError> {
    match parse_pack_spec(d) {
        Err(e) => Err(e),
        Ok((evs, n)) => match apply_events(s, evs, d, crnt) {
            Err(e) => Err(e),
            Ok(t) => Ok((t, n)),
        },
    }
}

/// The index once every pack is read: the last VOBU is closed and the
/// size in sectors is that of the title set (its byte size taken modulo
/// 2^32).
pub open spec fn finish_spec(s: IndexerView, maxsize: u64) -> Result<IndexedVtsView, StreamError> {
    match finalize_spec(s) {
        Err(e) => Err(e),
        Ok(t) => Ok(IndexedVtsView { vobus: t.vobus, total_size_blocks: ((maxsize as int % 0x1_0000_0000) / 2048) as u32 }),
    }
}

/// The VOBUs read so far, the open one last, start at the sectors of the
/// VOBU address map `admap` of the IFO (which may list fewer VOBUs, not
/// more).
pub open spec fn vobu_starts_match(s: IndexerView, admap: Seq<u32>) -> bool {
    let all = s.vobus.push(s.current);
    &&& admap.len() <= all.len()
    &&& forall|i: int| 0 <= i < admap.len() ==> (#[trigger] all[i]).sector_start == admap[i]
}

/// The GOPs of a VOBU's video with repaired temporal references, and
/// whether it holds a sequence end, as `finalize_spec` computes them.
pub open spec fn video_gops_spec(video: Seq<u8>) -> Result<(Seq<GopView>, bool), StreamError> {
    match gopalise(video) {
        Err(e) => Err(e),
        Ok((gops, seq_end)) => match retime_gops(gops) {
            None => Err(StreamError::Malformed),
            Some(g2) => Ok((g2, seq_end)),
        },
    }
}

/// Splits a VOBU's video into GOPs and repairs their temporal references,
/// as `video_gops_spec` says.
fn video_gops(video: &Vec<u8>) -> (r: Result<(Vec<Gop>, bool), StreamError>)
    ensures
        match video_gops_spec(video@) {
            Err(e) => r == Err::<(Vec<Gop>, bool), StreamError>(e),
            Ok((g2, seq_end)) => r is Ok && gops_view(r->Ok_0.0@) == g2 && r->Ok_0.1 == seq_end,
        },
{
    let n = video.len();
    if n < 4 || !(video[0] == 0 && video[1] == 0 && video[2] == 1 && video[3] == 0xB3) {
        return Err(StreamError::Malformed);
    }
    let (gops, seq_end) = Gopaliser::doit(video.as_slice())?;
    let ghost gv = gops_view(gops@);
    let mut out: Vec<Gop> = Vec::new();
    let mut i: usize = 0;
    while i < gops.len()
        invariant
            i <= gops@.len(),
            gv == gops_view(gops@),
            gopalise(video@) == Ok::<(Seq<GopView>, bool), StreamError>((gv, seq_end)),
            out@.len() == i,
            forall|j: int| 0 <= j < i ==> #[trigger] retime_ok(gv[j].frames),
            forall|j: int| 0 <= j < i ==> (#[trigger] out@[j])@ == (GopView { frames: retimed(gv[j].frames), ..gv[j] }),
        decreases gops@.len() - i,
    {
        let mut g = gops[i].clone();
        if !retime_gop(&mut g) {
            assert(retime_gops(gv) is None) by {
                assert(!retime_ok(gv[i as int].frames));
            }
            return Err(StreamError::Malformed);
        }
        out.push(g);
        i = i + 1;
    }
    assert(gops_view(out@) =~= retime_gops(gv).unwrap());
    Ok((out, seq_end))
}

/// Indexes a title set pack by pack.
pub struct Indexer {
    current_vobu: Vobu,
    vobus: Vec<Vobu>,
    video_buffer: Vec<u8>,
    seen_pci: bool,
}

impl View for Indexer {
    type V = IndexerView;

    closed spec fn view(&self) -> IndexerView {
        IndexerView {
            current: self.current_vobu@,
            vobus: vobus_view(self.vobus@),
            video: self.video_buffer@,
            seen_pci: self.seen_pci,
        }
    }
}

impl Indexer {
    pub fn new() -> (r: Indexer)
        ensures
            r@ == indexer_start(),
    {
        let r = Indexer { current_vobu: Vobu::empty(), vobus: Vec::new(), video_buffer: Vec::new(), seen_pci: false };
        assert(vobus_view(r.vobus@) =~= Seq::<VobuView>::empty());
        r
    }

    /// Closes the current VOBU, as `finalize_spec` says.
    fn finalize_vobu(&mut self) -> (r: Result<(), StreamError>)
        ensures
            match finalize_spec(old(self)@) {
                Err(e) => r == Err::<(), StreamError>(e),
                Ok(t) => r is Ok && final(self)@ == t,
            },
    {
        let n = self.video_buffer.len();
        let sz32 = #[verifier::truncate] (n as u32);
        assert(sz32 as int == n as int % 0x1_0000_0000) by (bit_vector)
            requires sz32 == n as u32;
        self.current_vobu.mpeg2_video_size = sz32;
        if n > 0 {
            let (gops, seq_end) = video_gops(&self.video_buffer)?;
            self.video_buffer.clear();
            self.current_vobu.gops = gops;
            self.current_vobu.mpeg2_has_seq_end = seq_end;
        }
        let mut fresh = Vobu::empty();
        std::mem::swap(&mut self.current_vobu, &mut fresh);
        self.vobus.push(fresh);
        proof {
            assert(vobus_view(self.vobus@) =~= vobus_view(old(self).vobus@).push(fresh@));
            assert(self.video_buffer@ =~= Seq::<u8>::empty() || n == 0);
        }
        Ok(())
    }

    /// Whether the VOBU being read can be closed: its video, if any, splits
    /// into GOPs whose temporal references can be repaired, as `finish`
    /// needs.
    pub fn can_finish(&self) -> (r: bool)
        ensures
            r == finalize_spec(self@) is Ok,
    {
        self.video_buffer.len() == 0 || video_gops(&self.video_buffer).is_ok()
    }

    /// The first stream with `id` in the current VOBU, if any.
    fn find_stream(&self, id: u8) -> (r: Option<usize>)
        ensures
            stream_index(streams_view(self.current_vobu.streams@), id) < 0 ==> r is None,
            stream_index(streams_view(self.current_vobu.streams@), id) >= 0 ==> r == Some(
                stream_index(streams_view(self.current_vobu.streams@), id) as usize,
            ),
    {
        let ghost sv = streams_view(self.current_vobu.streams@);
        let mut i: usize = 0;
        assert(sv.subrange(0, 0).len() == 0);
        while i < self.current_vobu.streams.len()
            invariant
                i <= sv.len(),
                sv == streams_view(self.current_vobu.streams@),
                stream_index(sv.subrange(0, i as int), id) == -1,
            decreases sv.len() - i,
        {
            assert(sv.subrange(0, i + 1).drop_last() =~= sv.subrange(0, i as int));
            if self.current_vobu.streams[i].id == id {
                assert(stream_index(sv.subrange(0, i + 1), id) == i);
                proof {
                    lemma_stream_index_prefix(sv, id, i + 1);
                }
                return Some(i);
            }
            i = i + 1;
        }
        assert(sv.subrange(0, sv.len() as int) =~= sv);
        None
    }

    /// Applies an audio packet's event to the current VOBU.
    fn apply_audio(&mut self, id: u8, frame_cnt: u8, first_acc_unit: u16, data_len: usize, pts: Option<u32>) -> (r: Result<(), StreamError>)
        ensures
            match audio_update(streams_view(old(self).current_vobu.streams@), id, frame_cnt, first_acc_unit, data_len, pts) {
                None => r == Err::<(), StreamError>(StreamError::Malformed),
                Some(st) => r is Ok && final(self)@ == (IndexerView { current: VobuView { streams: st, ..old(self)@.current }, ..old(self)@ }),
            },
    {
        let ghost sv0 = streams_view(self.current_vobu.streams@);
        let nstreams = self.current_vobu.streams.len();
        proof {
            lemma_stream_index_bounds(sv0, id);
            assert(sv0.len() == nstreams);
        }
        let k = match self.find_stream(id) {
            Some(k) => k,
            None => {
                let first_ptm = match pts {
                    Some(p) => p,
                    None => { return Err(StreamError::Malformed); },
                };
                self.current_vobu.streams.push(Stream { id, first_ptm, packets: AudioStreamPackets::empty() });
                assert(streams_view(self.current_vobu.streams@) =~= sv0.push(StreamView {
                    id,
                    first_ptm,
                    packets: AudioStreamPacketsView { know_units: Seq::empty(), total_bytes: 0, starting_frames: 0, abs_packet_cnt: 0 },
                }));
                self.current_vobu.streams.len() - 1
            },
        };
        let ghost sv1 = streams_view(self.current_vobu.streams@);
        proof {
            let idx = stream_index(sv0, id);
            if idx < 0 {
                assert(sv1 =~= sv0.push(StreamView {
                    id,
                    first_ptm: pts.unwrap(),
                    packets: AudioStreamPacketsView { know_units: Seq::empty(), total_bytes: 0, starting_frames: 0, abs_packet_cnt: 0 },
                }));
                assert(k == sv0.len());
            } else {
                assert(sv1 == sv0);
                assert(k == idx);
            }
        }
        let mut strm = self.current_vobu.streams.remove(k);
        assert(strm@ == sv1[k as int]);
        let dl = #[verifier::truncate] (data_len as u32);
        assert(dl as int == data_len as int % 0x1_0000_0000) by (bit_vector)
            requires dl == data_len as u32;
        if strm.packets.abs_packet_cnt == u32::MAX || strm.packets.starting_frames > u32::MAX - frame_cnt as u32
            || strm.packets.total_bytes > u32::MAX - dl {
            return Err(StreamError::Malformed);
        }
        let pre_total_bytes = strm.packets.total_bytes;
        if first_acc_unit != 0 {
            if pre_total_bytes > u32::MAX - first_acc_unit as u32 {
                return Err(StreamError::Malformed);
            }
            let p = match pts {
                Some(p) => p,
                None => { return Err(StreamError::Malformed); },
            };
            strm.packets.know_units.push(KnowUnit {
                offset: pre_total_bytes + first_acc_unit as u32 - 1,
                frame_cnt,
                pts: p,
            });
        }
        strm.packets.abs_packet_cnt = strm.packets.abs_packet_cnt + 1;
        strm.packets.starting_frames = strm.packets.starting_frames + frame_cnt as u32;
        strm.packets.total_bytes = pre_total_bytes + dl;
        let ghost newv = strm@;
        self.current_vobu.streams.insert(k, strm);
        proof {
            let st = audio_update(sv0, id, frame_cnt, first_acc_unit, data_len, pts).unwrap();
            assert(streams_view(self.current_vobu.streams@) =~= sv1.update(k as int, newv));
            assert(sv1.update(k as int, newv) =~= st);
        }
        Ok(())
    }

    /// Applies one event, as `apply_event` says.
    fn apply(&mut self, e: PackEvent, data: &[u8], crnt: u64) -> (r: Result<(), StreamError>)
        requires
            match e {
                PackEvent::Video { start, end } => start <= end <= data@.len(),
                _ => true,
            },
        ensures
            match apply_event(old(self)@, e, data@, crnt as int) {
                Err(x) => r == Err::<(), StreamError>(x),
                Ok(t) => r is Ok && final(self)@ == t,
            },
    {
        match e {
            PackEvent::NavPci { first_ptm } => {
                if self.seen_pci {
                    self.finalize_vobu()?;
                }
                self.seen_pci = true;
                self.current_vobu.first_ptm = first_ptm;
                let sec = crnt / 2048;
                let sec32 = #[verifier::truncate] (sec as u32);
                assert(sec32 as int == sec as int % 0x1_0000_0000) by (bit_vector)
                    requires sec32 == sec as u32;
                self.current_vobu.sector_start = sec32;
                Ok(())
            },
            PackEvent::NavDsi { vob, cell } => {
                self.current_vobu.vobcell = VobCell { vob, cell };
                Ok(())
            },
            PackEvent::Audio { id, frame_cnt, first_acc_unit, data_len, pts } => {
                self.apply_audio(id, frame_cnt, first_acc_unit, data_len, pts)
            },
            PackEvent::Video { start, end } => {
                let payload = vstd::slice::slice_subrange(data, start, end);
                self.video_buffer.extend_from_slice(payload);
                assert(self.video_buffer@ =~= old(self).video_buffer@ + data@.subrange(start as int, end as int));
                Ok(())
            },
        }
    }

    /// Reads the pack at the start of `data`, a sector-aligned window of the
    /// title set that lies at byte `crnt`, and returns the number of bytes
    /// the pack spans. On `UnexpectedEof` the window was too short and the
    /// indexer is unchanged, so the call can be repeated with a longer one.
    pub fn index_pack(&mut self, data: &[u8], crnt: u64) -> (r: Result<usize, StreamError>)
        ensures
            match index_pack_spec(old(self)@, data@, crnt as int) {
                Err(e) => r == Err::<usize, StreamError>(e),
                Ok((t, n)) => r == Ok::<usize, StreamError>(n as usize) && final(self)@ == t,
            },
            parse_pack_spec(data@) is Err ==> final(self)@ == old(self)@,
    {
        let (events, n) = parse_pack(data)?;
        let _len = data.len();
        proof {
            lemma_pack_video_ranges(data@);
        }
        let ghost evs = events@;
        let mut i: usize = 0;
        assert(evs.subrange(0, evs.len() as int) =~= evs);
        while i < events.len()
            invariant
                i <= evs.len(),
                evs == events@,
                parse_pack_spec(data@) == Ok::<(Seq<PackEvent>, int), StreamError>((evs, n as int)),
                forall|k: int| 0 <= k < evs.len() ==> match #[trigger] evs[k] {
                    PackEvent::Video { start, end } => start <= end <= data@.len(),
                    _ => true,
                },
                apply_events(old(self)@, evs, data@, crnt as int) == apply_events(self@, evs.subrange(i as int, evs.len() as int), data@, crnt as int),
            decreases evs.len() - i,
        {
            let ghost before = self@;
            let e = events[i];
            assert(evs.subrange(i as int, evs.len() as int).drop_first() =~= evs.subrange(i + 1, evs.len() as int));
            assert(evs.subrange(i as int, evs.len() as int)[0] == e);
            match self.apply(e, data, crnt) {
                Err(x) => {
                    assert(apply_events(before, evs.subrange(i as int, evs.len() as int), data@, crnt as int) == Err::<IndexerView, StreamError>(x));
                    return Err(x);
                },
                Ok(()) => {},
            }
            i = i + 1;
        }
        assert(evs.subrange(evs.len() as int, evs.len() as int) =~= Seq::<PackEvent>::empty());
        Ok(n)
    }

    /// Whether the VOBUs read so far start at the sectors of the address
    /// map `admap`, as `finish` needs.
    pub fn admap_matches(&self, admap: &[u32]) -> (r: bool)
        ensures
            r == vobu_starts_match(self@, admap@),
    {
        let n = self.vobus.len();
        if admap.len() > n && admap.len() - n > 1 {
            return false;
        }
        let ghost all = self@.vobus.push(self@.current);
        let mut i: usize = 0;
        while i < admap.len()
            invariant
                i <= admap@.len() <= n + 1,
                n == self.vobus@.len(),
                all == self@.vobus.push(self@.current),
                forall|j: int| 0 <= j < i ==> (#[trigger] all[j]).sector_start == admap@[j],
            decreases admap@.len() - i,
        {
            let start = if i < n { self.vobus[i].sector_start } else { self.current_vobu.sector_start };
            assert(start == all[i as int].sector_start);
            if start != admap[i] {
                return false;
            }
            i = i + 1;
        }
        true
    }

    /// Closes the last VOBU and returns the index of a title set of
    /// `maxsize` bytes, whose VOBUs start at the sectors of the address
    /// map `admap`.
    #[allow(unused_variables)]
    pub fn finish(self, admap: &[u32], maxsize: u64) -> (r: IndexedVts)
        requires
            finalize_spec(self@) is Ok,
            vobu_starts_match(self@, admap@),
        ensures
            finish_spec(self@, maxsize) == Ok::<IndexedVtsView, StreamError>(r@),
            admap@.len() <= r@.vobus.len(),
            forall|i: int| 0 <= i < admap@.len() ==> (#[trigger] r@.vobus[i]).sector_start == admap@[i],
    {
        let ghost s0 = self@;
        let mut me = self;
        // closing succeeds: `finalize_spec` holds of the indexer
        let _ = me.finalize_vobu();
        proof {
            let t = me@;
            assert(finalize_spec(s0) == Ok::<IndexerView, StreamError>(t));
            let all = s0.vobus.push(s0.current);
            assert(t.vobus.len() == all.len());
            assert forall|i: int| 0 <= i < t.vobus.len() implies (#[trigger] t.vobus[i]).sector_start == all[i].sector_start by {
                if i < s0.vobus.len() {
                    assert(t.vobus[i] == s0.vobus[i]);
                }
            }
        }
        let m32 = #[verifier::truncate] (maxsize as u32);
        assert(m32 as int == maxsize as int % 0x1_0000_0000) by (bit_vector)
            requires m32 == maxsize as u32;
        let total = m32 / 2048;
        IndexedVts { vobus: me.vobus, total_size_blocks: total }
    }
}

/// Every video range the pack parser reports lies within the pack bytes.
proof fn lemma_pack_video_ranges(d: Seq<u8>)
    requires
        d.len() <= usize::MAX,
    ensures
        parse_pack_spec(d) matches Ok((evs, n)) ==> forall|k: int| 0 <= k < evs.len() ==> match #[trigger] evs[k] {
            PackEvent::Video { start, end } => start <= end <= d.len(),
            _ => true,
        },
{
    if d.len() >= 14 {
        lemma_packets_video_ranges(d, 14);
    }
}

proof fn lemma_packets_video_ranges(d: Seq<u8>, p: int)
    requires
        0 <= p,
        d.len() <= usize::MAX,
    ensures
        crate::pack::packets_from(d, p) matches Ok((evs, n)) ==> forall|k: int| 0 <= k < evs.len() ==> match #[trigger] evs[k] {
            PackEvent::Video { start, end } => start <= end <= d.len(),
            _ => true,
        },
    decreases d.len() - p,
{
    match crate::pack::packet_at(d, p) {
        Err(_) => {},
        Ok((ev, np)) => {
            let evs1 = match ev {
                Some(x) => seq![x],
                None => Seq::<PackEvent>::empty(),
            };
            assert(forall|k: int| 0 <= k < evs1.len() ==> match #[trigger] evs1[k] {
                PackEvent::Video { start, end } => start <= end <= d.len(),
                _ => true,
            });
            if np > p && np <= d.len() && np % (SECTOR_SIZE as int) != 0 {
                lemma_packets_video_ranges(d, np);
                match crate::pack::packets_from(d, np) {
                    Err(_) => {},
                    Ok((more, end)) => {
                        let all = evs1 + more;
                        assert forall|k: int| 0 <= k < all.len() implies match #[trigger] all[k] {
                            PackEvent::Video { start, end } => start <= end <= d.len(),
                            _ => true,
                        } by {
                            if k < evs1.len() {
                                assert(all[k] == evs1[k]);
                            } else {
                                assert(all[k] == more[k - evs1.len()]);
                            }
                        }
                    },
                }
            }
        },
    }
}

} // verus!

verus! {

/// The VOBU start sectors of an IFO file's VOBU address map: the map's
/// sector is the big-endian word at 0xE4; there a big-endian end address
/// is followed by `(end + 1 - 4) / 4` big-endian sector numbers. Reads
/// outside the file, and an end address below 3 or equal to `u32::MAX`,
/// are `Malformed`.
pub open spec fn admap_spec(d: Seq<u8>) -> Result<Seq<u32>, StreamError> {
    if d.len() < 0xE8 {
        Err(StreamError::Malformed)
    } else {
        let skp = be32(d[0xE4], d[0xE5], d[0xE6], d[0xE7]) * 2048;
        if d.len() - skp < 4 {
            Err(StreamError::Malformed)
        } else {
            let end = be32(d[skp], d[skp + 1], d[skp + 2], d[skp + 3]);
            if end + 1 > u32::MAX || end + 1 < 4 {
                Err(StreamError::Malformed)
            } else {
                let cnt = (end + 1 - 4) / 4;
                if d.len() - (skp + 4) < 4 * cnt {
                    Err(StreamError::Malformed)
                } else {
                    Ok(Seq::new(cnt as nat, |k: int| be32(
                        d[skp + 4 + 4 * k],
                        d[skp + 5 + 4 * k],
                        d[skp + 6 + 4 * k],
                        d[skp + 7 + 4 * k],
                    ) as u32))
                }
            }
        }
    }
}

/// Reads the VOBU address map of an IFO file, or fails, as `admap_spec`
/// says.
fn read_vobu_admap(buffer: &[u8]) -> (r: Result<Vec<u32>, StreamError>)
    ensures
        match admap_spec(buffer@) {
            Err(e) => r is Err && r->Err_0 == e,
            Ok(s) => r is Ok && r->Ok_0@ == s,
        },
{
    let mut cur = ByteCursor::new(buffer);
    if buffer.len() < 0xE8 {
        return Err(StreamError::Malformed);
    }
    cur.set_position(0xE4);
    let sec = match cur.read_be_u32() {
        Ok(x) => x,
        Err(_) => { return Err(StreamError::Malformed); },
    };
    let skp = sec as u64 * 2048;
    if skp > buffer.len() as u64 {
        return Err(StreamError::Malformed);
    }
    cur.set_position(skp as usize);
    let end = match cur.read_be_u32() {
        Ok(x) => x,
        Err(_) => { return Err(StreamError::Malformed); },
    };
    if end == u32::MAX || end + 1 < 4 {
        return Err(StreamError::Malformed);
    }
    let cnt = (end + 1 - 4) / 4;
    if (buffer.len() - cur.pos) / 4 < cnt as usize {
        return Err(StreamError::Malformed);
    }
    let ghost d = buffer@;
    let ghost base = skp as int + 4;
    let mut out: Vec<u32> = Vec::new();
    let mut k: u32 = 0;
    while k < cnt
        invariant
            d == buffer@,
            cur.data == buffer,
            cur.pos == base + 4 * k,
            k <= cnt,
            base + 4 * cnt <= d.len(),
            out@.len() == k,
            forall|t: int| 0 <= t < k ==> out@[t] as int == #[trigger] be32(
                d[base + 4 * t],
                d[base + 4 * t + 1],
                d[base + 4 * t + 2],
                d[base + 4 * t + 3],
            ),
        decreases cnt - k,
    {
        let x = match cur.read_be_u32() {
            Ok(x) => x,
            Err(_) => { return Err(StreamError::Malformed); },
        };
        out.push(x);
        k = k + 1;
    }
    proof {
        let s = admap_spec(d);
        assert(s is Ok);
        let sv = s->Ok_0;
        assert(sv.len() == out@.len());
        assert forall|t: int| 0 <= t < out@.len() implies out@[t] == sv[t] by {
            assert(base + 4 * t + 1 == skp + 5 + 4 * t);
            assert(out@[t] as int == be32(d[base + 4 * t], d[base + 4 * t + 1], d[base + 4 * t + 2], d[base + 4 * t + 3]));
        }
        assert(out@ =~= sv);
    }
    Ok(out)
}

/// Whether an IFO file holds a complete VOBU address map:
/// `parse_vobu_admap` accepts exactly these files.
pub fn admap_readable(buffer: &[u8]) -> (r: bool)
    ensures
        r == admap_spec(buffer@) is Ok,
{
    read_vobu_admap(buffer).is_ok()
}

/// Reads the VOBU address map of an IFO file that holds a complete one, as
/// `admap_spec` says.
pub fn parse_vobu_admap(buffer: &[u8]) -> (r: Vec<u32>)
    requires
        admap_spec(buffer@) is Ok,
    ensures
        admap_spec(buffer@) == Ok::<Seq<u32>, StreamError>(r@),
{
    read_vobu_admap(buffer).unwrap()
}

} // verus!
