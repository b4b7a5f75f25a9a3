use dvdsrc::bytes::{ByteCursor, StreamError};
use dvdsrc::gop::Gopaliser;
use dvdsrc::index::FrameType;
use dvdsrc::indexer::{admap_readable, parse_vobu_admap};
use dvdsrc::mpeg2video::{
    extension_header, group_of_pictures_header, picture_header, sequence_header, Extension,
    SEQUENCE_HEADER_LEN,
};
use dvdsrc::mpegps::{parse_pts, pes, pts_field_check, start_code, PTSDTS_DTS_FLAG, PTSDTS_PTS_FLAG, PTS_FLAG};
use dvdsrc::pack::{parse_pack, PackEvent, SECTOR_SIZE};

/// The five bytes of a PTS/DTS field with top nibble `flag` holding `v`.
fn pts_bytes(flag: u8, v: u64) -> [u8; 5] {
    [
        (flag << 4) | (((v >> 29) & 0x0E) as u8) | 1,
        ((v >> 22) & 0xFF) as u8,
        (((v >> 14) & 0xFE) as u8) | 1,
        ((v >> 7) & 0xFF) as u8,
        (((v << 1) & 0xFE) as u8) | 1,
    ]
}

#[test]
fn cursor_reads_big_endian() {
    let data = [0x12u8, 0x34, 0x56, 0x78, 0x9A];
    let mut c = ByteCursor::new(&data);
    assert_eq!(c.read_be_u16(), Ok(0x1234));
    assert_eq!(c.position(), 2);
    let mut d = ByteCursor::new(&data);
    assert_eq!(d.read_be_u32(), Ok(0x1234_5678));
    assert_eq!(d.read_u8(), Ok(0x9A));
    assert_eq!(d.read_u8(), Err(StreamError::UnexpectedEof));
    assert_eq!(d.position(), 5);
}

#[test]
fn cursor_short_read_keeps_position() {
    let data = [1u8, 2, 3];
    let mut c = ByteCursor::new(&data);
    c.set_position(2);
    assert_eq!(c.read_be_u16(), Err(StreamError::UnexpectedEof));
    assert_eq!(c.position(), 2);
    assert_eq!(c.read_bytes(1), Ok(&data[2..3]));
}

#[test]
fn pts_decodes_ninety_thousand() {
    let b = [0x21u8, 0x00, 0x05, 0xBF, 0x21];
    assert_eq!(parse_pts(PTS_FLAG, &b), 90000);
    assert_eq!(pts_bytes(PTS_FLAG, 90000), b);
}

#[test]
fn pts_keeps_low_32_bits() {
    let v: u64 = (1u64 << 32) + 12345;
    let b = pts_bytes(PTSDTS_PTS_FLAG, v);
    assert!(pts_field_check(PTSDTS_PTS_FLAG, &b));
    assert_eq!(parse_pts(PTSDTS_PTS_FLAG, &b), 12345);
    let top = pts_bytes(PTS_FLAG, (1u64 << 33) - 1);
    assert_eq!(parse_pts(PTS_FLAG, &top), u32::MAX);
}

#[test]
fn pts_field_check_wants_markers_and_flag() {
    let b = pts_bytes(PTS_FLAG, 42);
    assert!(pts_field_check(PTS_FLAG, &b));
    assert!(!pts_field_check(PTSDTS_DTS_FLAG, &b));
    let mut no_marker = b;
    no_marker[2] &= 0xFE;
    assert!(!pts_field_check(PTS_FLAG, &no_marker));
}

#[test]
fn start_code_reads_stream_id() {
    let data = [0u8, 0, 1, 0xBA, 0xFF];
    let mut c = ByteCursor::new(&data);
    assert_eq!(start_code(&mut c), Ok(0xBA));
    assert_eq!(c.position(), 4);
}

#[test]
fn start_code_errors() {
    let short = [0u8, 0, 1];
    assert_eq!(start_code(&mut ByteCursor::new(&short)), Err(StreamError::UnexpectedEof));
}

#[test]
fn pes_with_pts() {
    let mut data = vec![0x80u8, 0x80, 0x05];
    data.extend_from_slice(&pts_bytes(PTS_FLAG, 90000));
    data.extend_from_slice(&[0xAA, 0xBB, 0xCC]);
    let mut c = ByteCursor::new(&data);
    let p = pes(&mut c, 10).unwrap();
    assert_eq!(p.pts, Some(90000));
    assert_eq!(p.dts, None);
    assert_eq!(p.inner, vec![0xAA, 0xBB]);
    assert!(!p.has_pes_crc);
    assert_eq!(c.position(), 10);
}

#[test]
fn pes_with_pts_and_dts() {
    let mut data = vec![0x80u8, 0xC2, 0x0A];
    data.extend_from_slice(&pts_bytes(PTSDTS_PTS_FLAG, 3600));
    data.extend_from_slice(&pts_bytes(PTSDTS_DTS_FLAG, 1800));
    data.push(7);
    let p = pes(&mut ByteCursor::new(&data), 14).unwrap();
    assert_eq!(p.pts, Some(3600));
    assert_eq!(p.dts, Some(1800));
    assert!(p.has_pes_crc);
    assert_eq!(p.inner, vec![7]);
}

#[test]
fn pes_errors() {
    // payload shorter than the packet length
    let short = [0x80u8, 0x00, 0x00, 1];
    assert_eq!(pes(&mut ByteCursor::new(&short), 6).err(), Some(StreamError::UnexpectedEof));
}

#[test]
fn gop_header_flags() {
    let closed = [0u8, 0, 0, 0x40];
    let g = group_of_pictures_header(&mut ByteCursor::new(&closed)).unwrap();
    assert!(g.closed && !g.broken);
    let broken = [0u8, 0, 0, 0x20];
    let g = group_of_pictures_header(&mut ByteCursor::new(&broken)).unwrap();
    assert!(!g.closed && g.broken);
    assert_eq!(group_of_pictures_header(&mut ByteCursor::new(&broken[..3])), Err(StreamError::UnexpectedEof));
}

#[test]
fn picture_header_fields() {
    let b = [0x01u8, 0x48];
    let p = picture_header(&mut ByteCursor::new(&b)).unwrap();
    assert_eq!(p.temporal_reference, 5);
    assert_eq!(p.picture_type, 1);
    let b = [0xFFu8, 0xD8];
    let p = picture_header(&mut ByteCursor::new(&b)).unwrap();
    assert_eq!(p.temporal_reference, 1023);
    assert_eq!(p.picture_type, 3);
}

fn seq_header_bytes(code: u8) -> Vec<u8> {
    let mut v = vec![0u8; SEQUENCE_HEADER_LEN];
    v[0] = 0x2D;
    v[1] = 0x01;
    v[2] = 0xE0;
    v[3] = code;
    v
}

#[test]
fn sequence_header_ntsc() {
    let d = seq_header_bytes(0x24);
    let mut c = ByteCursor::new(&d);
    let s = sequence_header(&mut c).unwrap();
    assert_eq!((s.width, s.height), (720, 480));
    assert_eq!((s.ar_num, s.ar_den), (3, 4));
    assert_eq!((s.fr_num, s.fr_den), (30000, 1001));
    assert_eq!(c.position(), SEQUENCE_HEADER_LEN);
}

#[test]
fn sequence_header_pal_wide() {
    let mut d = seq_header_bytes(0x33);
    d[1] = 0x02;
    d[2] = 0x40;
    let s = sequence_header(&mut ByteCursor::new(&d)).unwrap();
    assert_eq!((s.width, s.height), (720, 576));
    assert_eq!((s.ar_num, s.ar_den), (9, 16));
    assert_eq!((s.fr_num, s.fr_den), (25, 1));
}

#[test]
fn sequence_header_errors() {
    let d = seq_header_bytes(0x24);
    assert_eq!(sequence_header(&mut ByteCursor::new(&d[..135])), Err(StreamError::UnexpectedEof));
}

#[test]
fn extension_kinds() {
    let seq_ext = [0x18u8, 0x08, 0x77];
    let mut c = ByteCursor::new(&seq_ext);
    assert_eq!(extension_header(&mut c), Ok(Some(Extension::Sequence { progressive_sequence: true })));
    assert_eq!(c.position(), 2);
    let pic_ext = [0x8Fu8, 0xFF, 0x03, 0x82, 0x80, 0, 0, 0, 0, 0, 0x55];
    let mut c = ByteCursor::new(&pic_ext);
    assert_eq!(extension_header(&mut c), Ok(Some(Extension::Picture { tff: true, rff: true, prog: true })));
    assert_eq!(c.position(), 10);
    let pic_ext = [0x8Fu8, 0xFF, 0x03, 0x00, 0x00];
    let mut c = ByteCursor::new(&pic_ext);
    assert_eq!(extension_header(&mut c), Ok(Some(Extension::Picture { tff: false, rff: false, prog: false })));
    assert_eq!(c.position(), 5);
    let other = [0x20u8, 0x01];
    let mut c = ByteCursor::new(&other);
    assert_eq!(extension_header(&mut c), Ok(None));
    assert_eq!(c.position(), 1);
}

#[test]
fn extension_errors() {
    let empty: [u8; 0] = [];
    assert_eq!(extension_header(&mut ByteCursor::new(&empty)), Err(StreamError::UnexpectedEof));
    let short_seq = [0x18u8];
    assert_eq!(extension_header(&mut ByteCursor::new(&short_seq)), Err(StreamError::UnexpectedEof));
}

/// A sequence header, a sequence extension, a closed GOP and two frame
/// pictures (an I frame shown second, a B frame shown first).
pub fn small_video() -> Vec<u8> {
    let mut v = vec![0u8, 0, 1, 0xB3];
    v.extend_from_slice(&seq_header_bytes(0x24));
    v.extend_from_slice(&[0, 0, 1, 0xB5, 0x18, 0x00]);
    v.extend_from_slice(&[0, 0, 1, 0xB8, 0x00, 0x00, 0x00, 0x40]);
    // I picture, temporal reference 1
    v.extend_from_slice(&[0, 0, 1, 0x00, 0x00, 0x48]);
    v.extend_from_slice(&[0, 0, 1, 0xB5, 0x8F, 0xFF, 0x03, 0x80, 0x80, 0, 0, 0, 0, 0]);
    // B picture, temporal reference 0
    v.extend_from_slice(&[0, 0, 1, 0x00, 0x00, 0x18]);
    v.extend_from_slice(&[0, 0, 1, 0xB5, 0x8F, 0xFF, 0x03, 0x00, 0x80, 0, 0, 0, 0, 0]);
    v
}

#[test]
fn gopaliser_splits_frames() {
    let v = small_video();
    let (gops, seq_end) = Gopaliser::doit(&v).unwrap();
    assert!(!seq_end);
    assert_eq!(gops.len(), 1);
    let g = &gops[0];
    assert!(g.closed);
    assert!(!g.prog_sequence);
    assert_eq!(g.sequence_header.width, 720);
    assert_eq!(g.frames.len(), 2);
    assert_eq!(g.frames[0].frametype, FrameType::I);
    assert_eq!(g.frames[0].temporal_reference, 1);
    assert!(g.frames[0].tff && g.frames[0].prog);
    assert_eq!(g.frames[1].frametype, FrameType::B);
    assert_eq!(g.frames[1].temporal_reference, 0);
    assert!(!g.frames[1].tff);
}

#[test]
fn gopaliser_sees_sequence_end_and_second_gop() {
    let mut v = small_video();
    v.extend_from_slice(&[0, 0, 1, 0xB3]);
    v.extend_from_slice(&seq_header_bytes(0x24));
    v.extend_from_slice(&[0, 0, 1, 0xB5, 0x18, 0x08]);
    v.extend_from_slice(&[0, 0, 1, 0xB8, 0x00, 0x00, 0x00, 0x00]);
    v.extend_from_slice(&[0, 0, 1, 0x00, 0x00, 0x08]);
    v.extend_from_slice(&[0, 0, 1, 0xB7]);
    let (gops, seq_end) = Gopaliser::doit(&v).unwrap();
    assert!(seq_end);
    assert_eq!(gops.len(), 2);
    assert!(!gops[1].closed);
    assert!(gops[1].prog_sequence);
    assert_eq!(gops[1].frames.len(), 1);
}

#[test]
fn gopaliser_sequence_end_anywhere() {
    let mut v = small_video();
    v.extend_from_slice(&[0, 0, 1, 0xB7, 0, 0, 1, 0xB2, 9, 9]);
    let (gops, seq_end) = Gopaliser::doit(&v).unwrap();
    assert!(seq_end);
    assert_eq!(gops.len(), 1);
    // the code split over bytes that are no start code is not seen
    let mut v = small_video();
    v.extend_from_slice(&[0xFF, 0, 1, 0xB7, 0, 0, 2, 0xB7]);
    assert!(!Gopaliser::doit(&v).unwrap().1);
}

#[test]
fn gopaliser_errors() {
    // a GOP header without the sequence extension before it
    let mut v = vec![0u8, 0, 1, 0xB3];
    v.extend_from_slice(&seq_header_bytes(0x24));
    v.extend_from_slice(&[0, 0, 1, 0xB8, 0x00, 0x00, 0x00, 0x40]);
    assert_eq!(Gopaliser::doit(&v).err(), Some(StreamError::Malformed));
    // a broken GOP
    let mut v = vec![0u8, 0, 1, 0xB3];
    v.extend_from_slice(&seq_header_bytes(0x24));
    v.extend_from_slice(&[0, 0, 1, 0xB5, 0x18, 0x00]);
    v.extend_from_slice(&[0, 0, 1, 0xB8, 0x00, 0x00, 0x00, 0x20]);
    assert_eq!(Gopaliser::doit(&v).err(), Some(StreamError::Malformed));
}

/// A 2048-byte pack: the pack header, the given packets and padding.
pub fn pack_with(packets: &[u8]) -> Vec<u8> {
    let mut v = vec![0u8, 0, 1, 0xBA, 0x44, 0, 4, 0, 4, 1, 1, 0x89, 0xC3, 0xF8];
    v.extend_from_slice(packets);
    let pad = SECTOR_SIZE - v.len() - 6;
    v.extend_from_slice(&[0, 0, 1, 0xBE, (pad >> 8) as u8, (pad & 0xFF) as u8]);
    v.resize(SECTOR_SIZE, 0xFF);
    v
}

/// A PCI navigation packet with this first PTM.
pub fn pci_packet(first_ptm: u32) -> Vec<u8> {
    let mut body = vec![0u8; 17];
    body[13..17].copy_from_slice(&first_ptm.to_be_bytes());
    let mut v = vec![0u8, 0, 1, 0xBF, 0, 17];
    v.extend_from_slice(&body);
    v
}

/// A DSI navigation packet with this VOB and cell.
pub fn dsi_packet(vob: u16, cell: u8) -> Vec<u8> {
    let mut body = vec![0u8; 29];
    body[0] = 1;
    body[25..27].copy_from_slice(&vob.to_be_bytes());
    body[28] = cell;
    let mut v = vec![0u8, 0, 1, 0xBF, 0, 29];
    v.extend_from_slice(&body);
    v
}

/// A private stream 1 audio packet with a PTS.
pub fn audio_packet(id: u8, frame_cnt: u8, first_acc_unit: u16, pts: u32, payload: &[u8]) -> Vec<u8> {
    let sz = 3 + 5 + 4 + payload.len();
    let mut v = vec![0u8, 0, 1, 0xBD, (sz >> 8) as u8, (sz & 0xFF) as u8, 0x81, 0x80, 0x05];
    v.extend_from_slice(&pts_bytes(PTS_FLAG, pts as u64));
    v.extend_from_slice(&[id, frame_cnt, (first_acc_unit >> 8) as u8, (first_acc_unit & 0xFF) as u8]);
    v.extend_from_slice(payload);
    v
}

/// An MPEG video packet without time stamps.
pub fn video_packet(payload: &[u8]) -> Vec<u8> {
    let sz = 3 + payload.len();
    let mut v = vec![0u8, 0, 1, 0xE0, (sz >> 8) as u8, (sz & 0xFF) as u8, 0x81, 0x00, 0x00];
    v.extend_from_slice(payload);
    v
}

#[test]
fn pack_events_in_order() {
    let mut pk = pci_packet(1234);
    pk.extend_from_slice(&dsi_packet(3, 2));
    pk.extend_from_slice(&audio_packet(0x80, 2, 5, 90000, &[9, 9, 9]));
    pk.extend_from_slice(&video_packet(&[1, 2, 3, 4]));
    let data = pack_with(&pk);
    let (evs, n) = parse_pack(&data).unwrap();
    assert_eq!(n, SECTOR_SIZE);
    assert_eq!(evs.len(), 4);
    assert_eq!(evs[0], PackEvent::NavPci { first_ptm: 1234 });
    assert_eq!(evs[1], PackEvent::NavDsi { vob: 3, cell: 2 });
    assert_eq!(
        evs[2],
        PackEvent::Audio { id: 0x80, frame_cnt: 2, first_acc_unit: 5, data_len: 3, pts: Some(90000) }
    );
    match evs[3] {
        PackEvent::Video { start, end } => assert_eq!(&data[start..end], &[1, 2, 3, 4]),
        _ => panic!("expected a video event"),
    }
}

#[test]
fn pack_errors() {
    let mut data = pack_with(&[]);
    data[3] = 0xBB;
    assert_eq!(parse_pack(&data).err(), Some(StreamError::Malformed));
    let data = pack_with(&[]);
    assert_eq!(parse_pack(&data[..1000]).err(), Some(StreamError::UnexpectedEof));
    assert_eq!(parse_pack(&data[..2]).err(), Some(StreamError::UnexpectedEof));
    // an unknown stream id
    let data = pack_with(&[0, 0, 1, 0xC0, 0, 0]);
    assert_eq!(parse_pack(&data).err(), Some(StreamError::Malformed));
}

#[test]
fn pack_skips_other_substreams() {
    // a subpicture packet (sub-stream 0x20) gives no event
    let sz = 3 + 2;
    let pk = [0u8, 0, 1, 0xBD, 0, sz, 0x81, 0x00, 0x00, 0x20, 0x00];
    let data = pack_with(&pk);
    let (evs, _) = parse_pack(&data).unwrap();
    assert!(evs.is_empty());
}

/// An IFO with a VOBU address map in sector 1 listing `sectors`.
pub fn ifo_with_admap(sectors: &[u32]) -> Vec<u8> {
    let mut v = vec![0u8; 2048];
    v[0xE4..0xE8].copy_from_slice(&1u32.to_be_bytes());
    let end = 4 * sectors.len() as u32 + 3;
    v.extend_from_slice(&end.to_be_bytes());
    for s in sectors {
        v.extend_from_slice(&s.to_be_bytes());
    }
    v
}

#[test]
fn admap_reads_sectors() {
    let ifo = ifo_with_admap(&[0, 17, 300]);
    assert!(admap_readable(&ifo));
    assert_eq!(parse_vobu_admap(&ifo), vec![0, 17, 300]);
    let ifo = ifo_with_admap(&[]);
    assert_eq!(parse_vobu_admap(&ifo), vec![]);
}

#[test]
fn admap_errors() {
    assert!(!admap_readable(&[0u8; 100]));
    let mut ifo = ifo_with_admap(&[0, 17, 300]);
    ifo.truncate(ifo.len() - 2);
    assert!(!admap_readable(&ifo));
    let mut ifo = vec![0u8; 2048];
    ifo[0xE4..0xE8].copy_from_slice(&5u32.to_be_bytes());
    assert!(!admap_readable(&ifo));
}
