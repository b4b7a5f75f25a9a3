use dvdsrc::audio::{
    audio_layout_possible, audio_plan_possible, find_stream_in, lpcm_format_known, lpcm_stream_format, raw_audio_frames_layout, raw_audio_frames_plan, AudioFrameReader, LpcmFormat,
    ReadChunk, XAudioFrameVobuInfo,
};
use dvdsrc::audio_clip::{
    ac3_channels, ac3_channels_known, ac3_frame_plan, ac3_num_samples, clip_frame_count, lpcm16_stereo, lpcm_num_samples, lpcm_read_plan,
    raw_frame_offset, Ac3Channels, Ac3FramePlan, LpcmRead,
};
use dvdsrc::index::{AudioStreamPackets, IndexedVts, KnowUnit, Stream, Vobu};
use dvdsrc::vobu_range::EVobu;

fn stream(id: u8, total_bytes: u32, know_units: Vec<KnowUnit>) -> Stream {
    let starting_frames = know_units.iter().map(|k| k.frame_cnt as u32).sum();
    Stream {
        id,
        first_ptm: 0,
        packets: AudioStreamPackets { know_units, total_bytes, starting_frames, abs_packet_cnt: 1 },
    }
}

fn vobu(sector: u32, first_ptm: u32, streams: Vec<Stream>) -> Vobu {
    let mut v = Vobu::empty();
    v.sector_start = sector;
    v.first_ptm = first_ptm;
    v.streams = streams;
    v
}

fn clip_vobus() -> Vec<Vobu> {
    vec![
        vobu(0, 1000, vec![stream(0x81, 5, vec![]), stream(0x80, 20, vec![KnowUnit { offset: 2, pts: 100, frame_cnt: 2 }])]),
        vobu(10, 4000, vec![stream(0x80, 10, vec![KnowUnit { offset: 0, pts: 4500, frame_cnt: 1 }])]),
        vobu(20, 5000, vec![stream(0x80, 12, vec![KnowUnit { offset: 0, pts: 4000, frame_cnt: 3 }])]),
    ]
}

#[test]
fn find_stream_takes_first_match() {
    let v = &clip_vobus()[0];
    assert_eq!(find_stream_in(&v.streams, 0x80), Some(1));
    assert_eq!(find_stream_in(&v.streams, 0x81), Some(0));
    assert_eq!(find_stream_in(&v.streams, 0x82), None);
}

#[test]
fn lpcm_format_from_header_byte() {
    assert_eq!(
        lpcm_stream_format(&[0x01, 0x01]),
        LpcmFormat { quant: 16, sample_rate: 48000, channels: 2, samples_per_frame: 80, frame_size: 320 }
    );
    assert_eq!(
        lpcm_stream_format(&[0x00, 0x93]),
        LpcmFormat { quant: 24, sample_rate: 96000, channels: 4, samples_per_frame: 160, frame_size: 1920 }
    );
    assert!(lpcm_format_known(&[0x01, 0x01]));
    assert!(!lpcm_format_known(&[0x00, 0x40]));
    assert!(!lpcm_format_known(&[0x00, 0x20]));
    assert!(!lpcm_format_known(&[0x00]));
}

#[test]
fn layout_tiles_the_stream() {
    let vobus: Vec<EVobu> = clip_vobus().into_iter().take(2).enumerate().map(|(i, v)| EVobu { i, v }).collect();
    let l = raw_audio_frames_layout(&vobus, 0x80, false, 8);
    assert_eq!(l.frame_cnt, 3);
    assert_eq!(l.pts_cutoff_start, 900);
    assert_eq!(
        l.infos,
        vec![
            XAudioFrameVobuInfo {
                sector_start: 0,
                demuxed_absolute_offset: 0,
                real_real_demuxed_size: 20,
                real_demuxed_size: 20,
                demuxed_size: 18,
                cut_front: 2,
                cut_back: 20,
            },
            XAudioFrameVobuInfo {
                sector_start: 10,
                demuxed_absolute_offset: 18,
                real_real_demuxed_size: 10,
                real_demuxed_size: 10,
                demuxed_size: 6,
                cut_front: 0,
                cut_back: 6,
            },
        ]
    );
    // the shares follow each other and end after whole frames
    for w in l.infos.windows(2) {
        assert_eq!(w[1].demuxed_absolute_offset, w[0].demuxed_absolute_offset + w[0].demuxed_size);
    }
    let last = l.infos.last().unwrap();
    assert_eq!(last.demuxed_absolute_offset + last.demuxed_size, l.frame_cnt * 8);
}

#[test]
fn layout_needs_the_stream() {
    let vobus: Vec<EVobu> = clip_vobus().into_iter().take(2).enumerate().map(|(i, v)| EVobu { i, v }).collect();
    assert!(audio_layout_possible(&vobus, 0x80, false, 8));
    assert!(!audio_layout_possible(&vobus, 0x83, false, 8));
    assert!(!audio_layout_possible(&vec![], 0x80, false, 8));
    assert!(!audio_layout_possible(&vobus, 0x80, false, 0));
}

#[test]
fn plan_appends_next_vobu_with_early_audio() {
    let index = IndexedVts { vobus: clip_vobus(), total_size_blocks: 30 };
    let sel: Vec<EVobu> = clip_vobus().into_iter().take(2).enumerate().map(|(i, v)| EVobu { i, v }).collect();
    let (vobus, id, cut_end) = raw_audio_frames_plan(&index, sel, 0, false);
    assert_eq!(id, 0x80);
    assert_eq!(vobus.len(), 3);
    assert_eq!(vobus[2].i, 2);
    assert_eq!(vobus[2].v.sector_start, 20);
    // three frames from 4000 in ticks of 2880; one starts before 5000
    assert_eq!(cut_end, 2 * 2880 - 1000);
}

#[test]
fn plan_keeps_clip_ending_at_last_vobu() {
    let index = IndexedVts { vobus: clip_vobus(), total_size_blocks: 30 };
    let sel: Vec<EVobu> = clip_vobus().into_iter().enumerate().map(|(i, v)| EVobu { i, v }).collect();
    let (vobus, id, cut_end) = raw_audio_frames_plan(&index, sel, 1, true);
    assert_eq!(id, 0xA1);
    assert_eq!(vobus.len(), 3);
    assert_eq!(cut_end, 0);
    let sel: Vec<EVobu> = clip_vobus().into_iter().take(1).enumerate().map(|(i, v)| EVobu { i, v }).collect();
    // the next VOBU's audio starts after its first PTM: nothing is appended
    let (vobus, _, cut_end) = raw_audio_frames_plan(&index, sel, 0, false);
    assert_eq!(vobus.len(), 1);
    assert_eq!(cut_end, 0);
}

#[test]
fn plan_errors() {
    let index = IndexedVts { vobus: clip_vobus(), total_size_blocks: 30 };
    assert!(!audio_plan_possible(&index, &vec![], 0, false));
    let sel: Vec<EVobu> = clip_vobus().into_iter().take(2).enumerate().map(|(i, v)| EVobu { i, v }).collect();
    assert!(audio_plan_possible(&index, &sel, 0, false));
    assert!(!audio_plan_possible(&index, &sel, 3, false));
    let sel: Vec<EVobu> = clip_vobus().into_iter().take(1).enumerate().map(|(i, v)| EVobu { i, v }).collect();
    assert!(!audio_plan_possible(&index, &sel, 200, false));
}

fn reader(infos: Vec<XAudioFrameVobuInfo>) -> AudioFrameReader<()> {
    AudioFrameReader { reader: (), frame_vobu_info: infos, stream_id: 0x80, seek_offset: 0 }
}

fn share(offset: u32, size: u32, cut_front: usize) -> XAudioFrameVobuInfo {
    XAudioFrameVobuInfo {
        sector_start: 0,
        demuxed_absolute_offset: offset,
        real_real_demuxed_size: size + cut_front as u32,
        real_demuxed_size: size + cut_front as u32,
        demuxed_size: size,
        cut_front,
        cut_back: cut_front + size as usize,
    }
}

#[test]
fn reads_cross_shares() {
    let r = reader(vec![share(0, 10, 2), share(10, 6, 0)]);
    assert_eq!(
        r.ready_plan(8, 5, 100),
        vec![ReadChunk { index: 0, start: 10, len: 2 }, ReadChunk { index: 1, start: 0, len: 3 }]
    );
    assert_eq!(r.ready_plan(3, 2, 100), vec![ReadChunk { index: 0, start: 5, len: 2 }]);
    assert_eq!(r.ready_plan(16, 4, 100), vec![]);
}

#[test]
fn reader_position_moves() {
    let mut r = reader(vec![share(0, 10, 2), share(10, 6, 0)]);
    assert_eq!(r.seek_start(9), 9);
    assert!(r.can_read(4));
    assert_eq!(r.read_plan(4), vec![ReadChunk { index: 0, start: 11, len: 1 }, ReadChunk { index: 1, start: 0, len: 3 }]);
    assert_eq!(r.advance(4), 13);
    assert_eq!(r.seek_offset, 13);
    // a share whose cuts leave fewer bytes than it claims cannot be read
    let mut bad = share(0, 10, 2);
    bad.cut_back = 5;
    let mut b = reader(vec![bad]);
    b.seek_start(4);
    assert!(!b.can_read(2));
    r.seek_start(u64::MAX - 1);
    assert_eq!(r.advance(1), u64::MAX);
}

#[test]
fn ac3_channel_modes() {
    assert_eq!(ac3_channels(2), Ac3Channels::Stereo);
    assert_eq!(ac3_channels(7 + 16), Ac3Channels::Surround51);
    assert_eq!(ac3_channels(7), Ac3Channels::Surround50);
    assert!(ac3_channels_known(2) && ac3_channels_known(7 + 16) && ac3_channels_known(7));
    assert!(!ac3_channels_known(1));
    assert!(!ac3_channels_known(2 + 16));
    assert_eq!(Ac3Channels::Stereo.count(), 2);
    assert_eq!(Ac3Channels::Surround51.count(), 6);
    assert_eq!(Ac3Channels::Surround50.count(), 5);
}

#[test]
fn clip_sample_counts() {
    assert_eq!(ac3_num_samples(3), 4608);
    assert_eq!(ac3_num_samples(u32::MAX / 1536), (u32::MAX / 1536 * 1536) as i64);
    assert_eq!(lpcm_num_samples(80, 5), 400);
    assert_eq!(clip_frame_count(4608, 3072), 2);
    assert_eq!(clip_frame_count(6144, 3072), 2);
    assert_eq!(clip_frame_count(0, 3072), 0);
    assert_eq!(clip_frame_count(400, 3072), 1);
}

#[test]
fn ac3_plans_follow_each_other() {
    let fl = 1792u32;
    let a = ac3_frame_plan(0, i32::MAX / 2, 2, 4608, fl, 3072);
    assert_eq!(a, Ac3FramePlan { out_samples: 3072, prime: None, first: 0, second: Some(1792) });
    let b = ac3_frame_plan(1, i32::MAX / 2, 2, 4608, fl, 3072);
    // the last host frame: half full, only its first AC-3 frame decoded
    assert_eq!(b, Ac3FramePlan { out_samples: 1536, prime: Some(1792), first: 2 * 1792, second: None });
    assert_eq!(b.prime, a.second);
    // a request right after the previous one decoded needs no priming
    let c = ac3_frame_plan(1, 0, 3, 9216, fl, 3072);
    assert_eq!(c, Ac3FramePlan { out_samples: 3072, prime: None, first: 2 * 1792, second: Some(3 * 1792) });
}

#[test]
fn lpcm_reads_follow_each_other() {
    let a = lpcm_read_plan(0, 5000, 3072, 16, 2);
    assert_eq!(a, LpcmRead { samples: 3072, offset: 0, len: 3072 * 4 });
    let b = lpcm_read_plan(1, 5000, 3072, 16, 2);
    assert_eq!(b, LpcmRead { samples: 5000 - 3072, offset: 3072 * 4, len: (5000 - 3072) * 4 });
    assert_eq!(b.offset, a.offset + a.len as u64);
}

#[test]
fn lpcm16_splits_channels() {
    let data = [0x01u8, 0x02, 0x03, 0x04, 0xFF, 0xFE, 0x00, 0x10, 0x77];
    let (l, r) = lpcm16_stereo(&data, 2);
    assert_eq!(l, vec![0x0102, 0xFFFE]);
    assert_eq!(r, vec![0x0304, 0x0010]);
    let (l, r) = lpcm16_stereo(&data, 0);
    assert!(l.is_empty() && r.is_empty());
}

#[test]
fn reads_return_bytes_up_to_stream_end() {
    let r = reader(vec![share(0, 10, 2), share(10, 6, 0)]);
    for (offset, size) in [(0u32, 16u64), (8, 5), (14, 10), (16, 4), (0, 100)] {
        let chunks = r.ready_plan(offset, size, 100);
        let total: usize = chunks.iter().map(|c| c.len).sum();
        let expected = if offset >= 16 { 0 } else { size.min(16 - offset as u64) as usize };
        assert_eq!(total, expected);
    }
}

#[test]
fn raw_frame_offsets() {
    assert_eq!(raw_frame_offset(0, 1792), 0);
    assert_eq!(raw_frame_offset(3, 1792), 5376);
    assert_eq!(raw_frame_offset(i32::MAX, u32::MAX), i32::MAX as u64 * u32::MAX as u64);
}
