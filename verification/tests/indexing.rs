use dvdsrc::bytes::StreamError;
use dvdsrc::demux::{AudioDemuxer, VideoDemuxer};
use dvdsrc::filters::{admap_of, parse_range, range_arg_valid, seek_lookup_table, seek_table_possible};
use dvdsrc::index::{Frame, FrameType, Gop, IndexedVts, KnowUnit, VobCell, Vobu};
use dvdsrc::indexer::Indexer;
use dvdsrc::mpeg2video::{SequenceHeader, SEQUENCE_HEADER_LEN};
use dvdsrc::retime::retime_gop;
use dvdsrc::vobu_range::VobuRanger;

const SECTOR: usize = 2048;

fn pts_bytes(v: u32) -> [u8; 5] {
    let v = v as u64;
    [
        0x21 | (((v >> 29) & 0x0E) as u8),
        ((v >> 22) & 0xFF) as u8,
        (((v >> 14) & 0xFE) as u8) | 1,
        ((v >> 7) & 0xFF) as u8,
        (((v << 1) & 0xFE) as u8) | 1,
    ]
}

fn pack_with(packets: &[u8]) -> Vec<u8> {
    let mut v = vec![0u8, 0, 1, 0xBA, 0x44, 0, 4, 0, 4, 1, 1, 0x89, 0xC3, 0xF8];
    v.extend_from_slice(packets);
    let pad = SECTOR - v.len() - 6;
    v.extend_from_slice(&[0, 0, 1, 0xBE, (pad >> 8) as u8, (pad & 0xFF) as u8]);
    v.resize(SECTOR, 0xFF);
    v
}

fn pci_packet(first_ptm: u32) -> Vec<u8> {
    let mut body = vec![0u8; 17];
    body[13..17].copy_from_slice(&first_ptm.to_be_bytes());
    let mut v = vec![0u8, 0, 1, 0xBF, 0, 17];
    v.extend_from_slice(&body);
    v
}

fn dsi_packet(vob: u16, cell: u8) -> Vec<u8> {
    let mut body = vec![0u8; 29];
    body[0] = 1;
    body[25..27].copy_from_slice(&vob.to_be_bytes());
    body[28] = cell;
    let mut v = vec![0u8, 0, 1, 0xBF, 0, 29];
    v.extend_from_slice(&body);
    v
}

fn audio_packet(id: u8, frame_cnt: u8, first_acc_unit: u16, pts: u32, payload: &[u8]) -> Vec<u8> {
    let sz = 3 + 5 + 4 + payload.len();
    let mut v = vec![0u8, 0, 1, 0xBD, (sz >> 8) as u8, (sz & 0xFF) as u8, 0x81, 0x80, 0x05];
    v.extend_from_slice(&pts_bytes(pts));
    v.extend_from_slice(&[id, frame_cnt, (first_acc_unit >> 8) as u8, (first_acc_unit & 0xFF) as u8]);
    v.extend_from_slice(payload);
    v
}

fn video_packet(payload: &[u8]) -> Vec<u8> {
    let sz = 3 + payload.len();
    let mut v = vec![0u8, 0, 1, 0xE0, (sz >> 8) as u8, (sz & 0xFF) as u8, 0x81, 0x00, 0x00];
    v.extend_from_slice(payload);
    v
}

fn small_video() -> Vec<u8> {
    let mut hdr = vec![0u8; SEQUENCE_HEADER_LEN];
    hdr[0] = 0x2D;
    hdr[1] = 0x01;
    hdr[2] = 0xE0;
    hdr[3] = 0x24;
    let mut v = vec![0u8, 0, 1, 0xB3];
    v.extend_from_slice(&hdr);
    v.extend_from_slice(&[0, 0, 1, 0xB5, 0x18, 0x00]);
    v.extend_from_slice(&[0, 0, 1, 0xB8, 0x00, 0x00, 0x00, 0x40]);
    v.extend_from_slice(&[0, 0, 1, 0x00, 0x00, 0x48]);
    v.extend_from_slice(&[0, 0, 1, 0xB5, 0x8F, 0xFF, 0x03, 0x80, 0x80, 0, 0, 0, 0, 0]);
    v.extend_from_slice(&[0, 0, 1, 0x00, 0x00, 0x18]);
    v.extend_from_slice(&[0, 0, 1, 0xB5, 0x8F, 0xFF, 0x03, 0x00, 0x80, 0, 0, 0, 0, 0]);
    v
}

/// Two VOBUs: the first with navigation, AC-3 audio and the small video,
/// the second with navigation only.
fn two_vobu_disc() -> Vec<u8> {
    let mut p0 = pci_packet(1000);
    p0.extend_from_slice(&dsi_packet(1, 1));
    p0.extend_from_slice(&audio_packet(0x80, 2, 1, 900, &[10, 11, 12, 13]));
    p0.extend_from_slice(&video_packet(&small_video()));
    let mut p1 = pci_packet(7000);
    p1.extend_from_slice(&dsi_packet(1, 2));
    let mut disc = pack_with(&p0);
    disc.extend_from_slice(&pack_with(&p1));
    disc
}

fn index_disc(disc: &[u8], admap: &[u32]) -> Result<IndexedVts, StreamError> {
    let mut ix = Indexer::new();
    let mut pos = 0usize;
    while pos < disc.len() {
        let n = ix.index_pack(&disc[pos..], pos as u64)?;
        pos += n;
    }
    assert!(ix.can_finish());
    assert!(ix.admap_matches(admap));
    Ok(ix.finish(admap, disc.len() as u64))
}

#[test]
fn indexer_builds_vobus() {
    let disc = two_vobu_disc();
    let vts = index_disc(&disc, &[0, 1]).unwrap();
    assert_eq!(vts.total_size_blocks, 2);
    assert_eq!(vts.vobus.len(), 2);
    let v0 = &vts.vobus[0];
    assert_eq!(v0.sector_start, 0);
    assert_eq!(v0.first_ptm, 1000);
    assert_eq!(v0.vobcell, VobCell { vob: 1, cell: 1 });
    assert_eq!(v0.mpeg2_video_size as usize, small_video().len());
    assert!(!v0.mpeg2_has_seq_end);
    assert_eq!(v0.gops.len(), 1);
    assert_eq!(v0.gops[0].frames.len(), 2);
    assert_eq!(v0.streams.len(), 1);
    let s = &v0.streams[0];
    assert_eq!(s.id, 0x80);
    assert_eq!(s.first_ptm, 900);
    assert_eq!(s.packets.total_bytes, 4);
    assert_eq!(s.packets.starting_frames, 2);
    assert_eq!(s.packets.abs_packet_cnt, 1);
    assert_eq!(s.packets.know_units, vec![KnowUnit { offset: 0, pts: 900, frame_cnt: 2 }]);
    let v1 = &vts.vobus[1];
    assert_eq!(v1.sector_start, 1);
    assert_eq!(v1.first_ptm, 7000);
    assert_eq!(v1.vobcell, VobCell { vob: 1, cell: 2 });
    assert!(v1.gops.is_empty());
}

#[test]
fn indexer_checks_address_map() {
    let disc = two_vobu_disc();
    let mut ix = Indexer::new();
    assert_eq!(ix.index_pack(&disc, 0), Ok(SECTOR));
    assert_eq!(ix.index_pack(&disc[SECTOR..], SECTOR as u64), Ok(SECTOR));
    assert!(ix.admap_matches(&[0, 1]));
    assert!(ix.admap_matches(&[0]));
    assert!(ix.admap_matches(&[]));
    assert!(!ix.admap_matches(&[0, 2]));
    assert!(!ix.admap_matches(&[1]));
    assert!(!ix.admap_matches(&[0, 1, 2]));
    assert!(index_disc(&disc, &[0]).is_ok());
}

#[test]
fn indexer_short_window_changes_nothing() {
    let disc = two_vobu_disc();
    let mut ix = Indexer::new();
    assert_eq!(ix.index_pack(&disc[..100], 0), Err(StreamError::UnexpectedEof));
    assert_eq!(ix.index_pack(&disc[..SECTOR], 0), Ok(SECTOR));
    assert_eq!(ix.index_pack(&disc[SECTOR..], SECTOR as u64), Ok(SECTOR));
    assert!(ix.admap_matches(&[0, 1]));
    assert!(ix.can_finish());
    let vts = ix.finish(&[0, 1], disc.len() as u64);
    assert_eq!(vts.vobus.len(), 2);
}

#[test]
fn indexer_wants_pts_on_new_stream() {
    // an audio packet whose PES header has no PTS
    let sz = 3 + 4 + 2;
    let pk = [0u8, 0, 1, 0xBD, 0, sz, 0x81, 0x00, 0x00, 0x80, 1, 0, 1, 5, 6];
    let mut p0 = pci_packet(0);
    p0.extend_from_slice(&pk);
    let disc = pack_with(&p0);
    let mut ix = Indexer::new();
    assert_eq!(ix.index_pack(&disc, 0), Err(StreamError::Malformed));
}

fn frame(t: FrameType, tr: u8) -> Frame {
    Frame { frametype: t, real_temporal_reference: tr, temporal_reference: tr, tff: false, rff: false, prog: false }
}

fn gop_of(frames: Vec<Frame>) -> Gop {
    Gop { sequence_header: SequenceHeader::zeroed(), closed: true, prog_sequence: false, frames }
}

#[test]
fn retime_keeps_good_references() {
    let mut g = gop_of(vec![frame(FrameType::I, 2), frame(FrameType::B, 0), frame(FrameType::B, 1)]);
    assert!(retime_gop(&mut g));
    let trs: Vec<u8> = g.frames.iter().map(|f| f.temporal_reference).collect();
    assert_eq!(trs, vec![2, 0, 1]);
}

#[test]
fn retime_repairs_out_of_range_reference() {
    // a reference of 9 in a GOP of three frames becomes one past the largest other
    let mut g = gop_of(vec![frame(FrameType::I, 9), frame(FrameType::B, 0), frame(FrameType::B, 1)]);
    assert!(retime_gop(&mut g));
    let trs: Vec<u8> = g.frames.iter().map(|f| f.temporal_reference).collect();
    assert_eq!(trs, vec![2, 0, 1]);
    assert_eq!(g.frames[0].real_temporal_reference, 9);
}

#[test]
fn retime_rejects_gaps() {
    let mut g = gop_of(vec![frame(FrameType::I, 1), frame(FrameType::P, 1)]);
    assert!(!retime_gop(&mut g));
    let mut empty = gop_of(vec![]);
    assert!(!retime_gop(&mut empty));
    let mut lone = gop_of(vec![frame(FrameType::I, 5)]);
    assert!(!retime_gop(&mut lone));
}

fn vobu_at(sector: u32) -> Vobu {
    let mut v = Vobu::empty();
    v.sector_start = sector;
    v
}

fn vts_of(sectors: &[u32], total: u32) -> IndexedVts {
    IndexedVts { vobus: sectors.iter().map(|s| vobu_at(*s)).collect(), total_size_blocks: total }
}

#[test]
fn ranger_selects_in_range_order() {
    let vts = vts_of(&[0, 4, 9, 12], 20);
    let r = VobuRanger::from(&[(2, 3), (0, 0)], &vts);
    let idx: Vec<usize> = r.iter().map(|e| e.i).collect();
    assert_eq!(idx, vec![2, 3, 0]);
    assert_eq!(r[0].v.sector_start, 9);
    assert_eq!(r[2].v.sector_start, 0);
}

#[test]
fn ranger_of_joined_ranges_joins_selections() {
    let vts = vts_of(&[0, 4, 9, 12], 20);
    let a = VobuRanger::from(&[(2, 3)], &vts);
    let b = VobuRanger::from(&[(0, 1), (3, 3)], &vts);
    let ab = VobuRanger::from(&[(2, 3), (0, 1), (3, 3)], &vts);
    let joined: Vec<usize> = a.iter().chain(b.iter()).map(|e| e.i).collect();
    let idx: Vec<usize> = ab.iter().map(|e| e.i).collect();
    assert_eq!(idx, joined);
    assert_eq!(idx, vec![2, 3, 0, 1, 3]);
}

#[test]
fn ranger_full_takes_all() {
    let vts = vts_of(&[0, 4, 9], 20);
    let r = VobuRanger::full(&vts);
    let idx: Vec<usize> = r.iter().map(|e| e.i).collect();
    assert_eq!(idx, vec![0, 1, 2]);
}

#[test]
fn range_argument_parsing() {
    assert_eq!(parse_range(None, 5), vec![(0, 4)]);
    assert!(!range_arg_valid(None, 0));
    assert_eq!(parse_range(Some(&[1i64, 3, 0, 0][..]), 5), vec![(1, 3), (0, 0)]);
    assert_eq!(parse_range(Some(&[1i64, 5][..]), 5), vec![(1, 5)]);
    assert!(range_arg_valid(Some(&[1i64, 5][..]), 5));
    assert!(!range_arg_valid(Some(&[1i64][..]), 5));
    assert!(!range_arg_valid(Some(&[3i64, 1][..]), 5));
    assert!(!range_arg_valid(Some(&[-1i64, 1][..]), 5));
    assert!(!range_arg_valid(Some(&[1i64, 6][..]), 5));
    assert_eq!(parse_range(Some(&[][..]), 5), vec![]);
}

#[test]
fn admap_lists_start_sectors() {
    let vts = vts_of(&[0, 4, 9], 20);
    assert_eq!(admap_of(&vts), vec![0, 4, 9]);
}

#[test]
fn seek_table_covers_selected_sectors() {
    let vts = vts_of(&[0, 2, 5], 7);
    let sel = VobuRanger::from(&[(2, 2), (0, 0)], &vts);
    let t = seek_lookup_table(&vts, &sel);
    assert_eq!(t, vec![5 * 2048, 6 * 2048, 0, 2048]);
    let all = VobuRanger::full(&vts);
    let t = seek_lookup_table(&vts, &all);
    assert_eq!(t.len(), 7);
    assert_eq!(t[6], 6 * 2048);
}

#[test]
fn seek_table_rejects_backward_sectors() {
    let vts = vts_of(&[0, 5, 3], 7);
    let all = VobuRanger::full(&vts);
    assert!(!seek_table_possible(&vts, &all));
    let first = VobuRanger::from(&[(0, 0)], &vts);
    assert!(seek_table_possible(&vts, &first));
}

#[test]
fn audio_demuxer_collects_stream() {
    let mut pk = audio_packet(0x81, 1, 0, 100, &[1, 2, 3]);
    pk.extend_from_slice(&audio_packet(0x80, 1, 0, 100, &[4, 5, 6, 7]));
    pk.extend_from_slice(&video_packet(&[9, 9]));
    let pack = pack_with(&pk);
    let mut d = AudioDemuxer::new(10, 0x80, false);
    let mut out = Vec::new();
    assert_eq!(d.feed_pack(&pack, &mut out), Ok(false));
    assert_eq!(out, vec![4, 5, 6, 7]);
    assert_eq!(d.packets, 2);
    let mut d = AudioDemuxer::new(4, 0x80, false);
    let mut out = Vec::new();
    assert_eq!(d.feed_pack(&pack, &mut out), Ok(true));
    assert_eq!(out, vec![4, 5, 6, 7]);
}

#[test]
fn audio_demuxer_strips_lpcm_headers() {
    let pk = audio_packet(0xA0, 1, 0, 100, &[0xAA, 0xBB, 0xCC, 1, 2, 3, 4]);
    let pack = pack_with(&pk);
    // the target counts the stripped headers too
    let mut d = AudioDemuxer::new(4 + 3, 0xA0, true);
    let mut out = Vec::new();
    assert_eq!(d.feed_pack(&pack, &mut out), Ok(true));
    assert_eq!(out, vec![1, 2, 3, 4]);
}

#[test]
fn audio_demuxer_overshoot_is_malformed() {
    let pk = audio_packet(0x80, 1, 0, 100, &[4, 5, 6, 7]);
    let pack = pack_with(&pk);
    let mut d = AudioDemuxer::new(2, 0x80, false);
    let mut out = Vec::new();
    assert_eq!(d.feed_pack(&pack, &mut out), Err(StreamError::Malformed));
    let mut bad = pack.clone();
    bad[3] = 0xB9;
    let mut d = AudioDemuxer::new(2, 0x80, false);
    assert_eq!(d.feed_pack(&bad, &mut Vec::new()), Err(StreamError::Malformed));
}

#[test]
fn video_demuxer_collects_payload() {
    let mut pk = audio_packet(0x80, 1, 0, 100, &[4, 5]);
    pk.extend_from_slice(&video_packet(&[1, 2, 3]));
    pk.extend_from_slice(&video_packet(&[4, 5]));
    let pack = pack_with(&pk);
    let d = VideoDemuxer::new(100);
    assert!(!d.is_done_before_start());
    let mut out = Vec::new();
    assert_eq!(d.feed_pack(&pack, &mut out), Ok(false));
    assert_eq!(out, vec![1, 2, 3, 4, 5]);
    let d = VideoDemuxer::new(3);
    let mut out = Vec::new();
    assert_eq!(d.feed_pack(&pack, &mut out), Ok(true));
    assert_eq!(out, vec![1, 2, 3]);
    let d = VideoDemuxer::new(4);
    assert_eq!(d.feed_pack(&pack, &mut Vec::new()), Err(StreamError::Malformed));
    assert!(VideoDemuxer::new(0).is_done_before_start());
}
