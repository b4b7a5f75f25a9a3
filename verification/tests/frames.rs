use dvdsrc::filters::{
    blank_frame, cache_key, cache_key_fits, cache_needs_clear, color_primaries, place_decoded, FramePlace, decode_plan, decode_plan_possible, display_positions, display_positions_possible, field_based, frame_tables,
    info_frame_bytes, matrix_coefficients, sort_by_temporal_reference, transfer_characteristics, wanted_position,
    sar_choice, ColorPrimaries, DecodePlan, FieldBased, MatrixCoefficients, SeqTail, TransferCharacteristics,
};
use dvdsrc::index::{Frame, FrameType, Gop, VobCell, Vobu};
use dvdsrc::mpeg2video::SequenceHeader;

fn frame(t: FrameType, tr: u8) -> Frame {
    Frame { frametype: t, real_temporal_reference: tr, temporal_reference: tr, tff: false, rff: false, prog: false }
}

fn gop(closed: bool, trs: &[u8]) -> Gop {
    let frames = trs
        .iter()
        .enumerate()
        .map(|(k, t)| frame(if k == 0 { FrameType::I } else { FrameType::B }, *t))
        .collect();
    Gop { sequence_header: SequenceHeader::zeroed(), closed, prog_sequence: false, frames }
}

fn vobu(gops: Vec<Gop>) -> Vobu {
    let mut v = Vobu::empty();
    v.gops = gops;
    v
}

#[test]
fn frame_tables_number_frames() {
    let vobus = vec![
        vobu(vec![gop(true, &[2, 0, 1]), gop(false, &[1, 0])]),
        vobu(vec![]),
        vobu(vec![gop(true, &[0])]),
    ];
    let t = frame_tables(&vobus).unwrap();
    assert_eq!(t.num_frames, 6);
    assert_eq!(t.absolute_frame, vec![0, 5, 5]);
    assert_eq!(t.vobu_lookup, vec![0, 0, 0, 0, 0, 2]);
    // every frame lies between its VOBU's first frame and the next VOBU's
    for (f, v) in t.vobu_lookup.iter().enumerate() {
        assert!(t.absolute_frame[*v] as usize <= f);
        if *v + 1 < vobus.len() {
            assert!(f < t.absolute_frame[*v + 1] as usize);
        }
    }
}

#[test]
fn sort_orders_by_temporal_reference_stably() {
    let mut a = frame(FrameType::B, 1);
    a.tff = true;
    let b = frame(FrameType::I, 2);
    let c = frame(FrameType::B, 0);
    let d = frame(FrameType::P, 1);
    let sorted = sort_by_temporal_reference(&vec![a, b, c, d]);
    assert_eq!(sorted, vec![c, a, d, b]);
    for w in sorted.windows(2) {
        assert!(w[0].temporal_reference <= w[1].temporal_reference);
    }
    assert!(sort_by_temporal_reference(&vec![]).is_empty());
}

#[test]
fn info_frame_entries_in_display_order() {
    let mut g = gop(true, &[1, 0]);
    g.frames[0].tff = true;
    g.frames[0].prog = true;
    g.frames[1].rff = true;
    g.prog_sequence = true;
    let mut v = vobu(vec![g]);
    v.vobcell = VobCell { vob: 0x0102, cell: 7 };
    let bytes = info_frame_bytes(&vec![v]);
    // the frame with temporal reference 0 (rff) first, then the I frame (tff, prog)
    assert_eq!(bytes, vec![2 + 8, 1, 2, 7, 1 + 4 + 8, 1, 2, 7]);
}

#[test]
fn decode_plan_cases() {
    let mut last = vobu(vec![gop(false, &[0])]);
    last.mpeg2_has_seq_end = true;
    let vobus = vec![vobu(vec![gop(false, &[0, 1])]), vobu(vec![gop(true, &[0])]), vobu(vec![gop(false, &[0])]), last];
    let lookup = frame_tables(&vobus).unwrap().vobu_lookup;
    assert_eq!(lookup, vec![0, 0, 1, 2, 3]);
    // an open first GOP with nothing before it
    assert_eq!(
        decode_plan(&vobus, &lookup, 0, 100),
        DecodePlan {
            target_vobu: 0,
            last_vobu: false,
            decode_previous: false,
            non_closed_gop_but_rebuf: true,
            tail: SeqTail::SequenceHeader,
        }
    );
    // a closed GOP needs nothing before it
    let p = decode_plan(&vobus, &lookup, 2, 100);
    assert!(!p.decode_previous && !p.non_closed_gop_but_rebuf);
    // an open GOP after a VOBU that was not just decoded
    let p = decode_plan(&vobus, &lookup, 3, 0);
    assert!(p.decode_previous);
    // ... and after the one that was
    let p = decode_plan(&vobus, &lookup, 3, 1);
    assert!(!p.decode_previous && !p.non_closed_gop_but_rebuf);
    // the last VOBU, which ends with its own sequence end code
    let p = decode_plan(&vobus, &lookup, 4, 2);
    assert!(p.last_vobu);
    assert_eq!(p.tail, SeqTail::Nothing);
    assert!(decode_plan_possible(&vobus, &lookup, 4));
    assert!(!decode_plan_possible(&vobus, &lookup, 5));
    assert!(!decode_plan_possible(&vobus, &lookup, -1));
    // a VOBU without GOPs cannot be decoded
    let bare = vec![vobu(vec![])];
    assert!(!decode_plan_possible(&bare, &vec![0], 0));
}

#[test]
fn decode_plan_sequence_end_for_last_vobu() {
    let vobus = vec![vobu(vec![gop(true, &[0])])];
    let lookup = frame_tables(&vobus).unwrap().vobu_lookup;
    let p = decode_plan(&vobus, &lookup, 0, 0);
    assert!(p.last_vobu);
    assert_eq!(p.tail, SeqTail::SequenceEnd);
}

#[test]
fn display_positions_add_gop_offsets() {
    let v = vobu(vec![gop(true, &[2, 0, 1]), gop(false, &[1, 0])]);
    assert!(display_positions_possible(&v));
    assert_eq!(display_positions(&v), vec![2, 0, 1, 4, 3]);
    let too_far = vobu(vec![gop(true, &[0, 1]), gop(true, &[254])]);
    assert!(!display_positions_possible(&too_far));
}

#[test]
fn wanted_position_is_offset_in_vobu() {
    assert_eq!(wanted_position(10, 7), 3);
    assert_eq!(wanted_position(300, 0), 44);
    assert_eq!(wanted_position(7, 7), 0);
}

#[test]
fn blank_frame_only_before_leading_i_frame() {
    let frames = gop(false, &[2, 0, 1, 5]).frames;
    assert!(!blank_frame(&frames, 1, false));
    assert!(blank_frame(&frames, 1, true));
    assert!(!blank_frame(&frames, 3, true));
    // outside an open GOP without a previous VOBU nothing is blanked
    let mut not_i = frames.clone();
    not_i[0].frametype = FrameType::P;
    assert!(!blank_frame(&not_i, 1, false));
}

#[test]
fn cache_key_adds_position() {
    assert_eq!(cache_key(100, 5), 105);
    assert!(!cache_key_fits(i32::MAX as u64, 1));
    assert!(cache_key_fits(i32::MAX as u64, 0));
    assert_eq!(cache_key(0xFFFF_FFFF, 3), 2);
}

#[test]
fn colour_codes() {
    assert_eq!(color_primaries(1), ColorPrimaries::Bt709);
    assert_eq!(color_primaries(5), ColorPrimaries::Bt470Bg);
    assert_eq!(color_primaries(6), ColorPrimaries::St170M);
    assert_eq!(color_primaries(2), ColorPrimaries::Unspecified);
    assert_eq!(transfer_characteristics(6), TransferCharacteristics::Bt601);
    assert_eq!(transfer_characteristics(8), TransferCharacteristics::Linear);
    assert_eq!(transfer_characteristics(0), TransferCharacteristics::Unspecified);
    assert_eq!(matrix_coefficients(4), MatrixCoefficients::Fcc);
    assert_eq!(matrix_coefficients(7), MatrixCoefficients::St240M);
    assert_eq!(matrix_coefficients(3), MatrixCoefficients::Unspecified);
}

#[test]
fn field_order() {
    assert_eq!(field_based(true, true), FieldBased::Progressive);
    assert_eq!(field_based(true, false), FieldBased::Top);
    assert_eq!(field_based(false, false), FieldBased::Bottom);
}

use dvdsrc::decode_track::{
    event_of, is_known_state, picture_info, priming_stops, DecodeEvent, DecodeStep, DecodeTracker, PictureInfo, STATE_BUFFER,
    STATE_END, STATE_GOP, STATE_INVALID, STATE_PICTURE, STATE_SEQUENCE, STATE_SEQUENCE_MODIFIED, STATE_SLICE,
};

fn pic(f: &Frame) -> DecodeEvent {
    DecodeEvent::Picture(PictureInfo { temporal_reference: f.real_temporal_reference, tff: f.tff, rff: f.rff, prog: f.prog })
}

#[test]
fn decoder_states_map_to_events() {
    let p = picture_info(0x105, 8 + 256);
    assert_eq!(p, PictureInfo { temporal_reference: 5, tff: true, rff: true, prog: false });
    assert_eq!(picture_info(3, 16).prog, true);
    assert_eq!(event_of(STATE_SEQUENCE, p), DecodeEvent::Sequence);
    assert_eq!(event_of(STATE_SEQUENCE_MODIFIED, p), DecodeEvent::Sequence);
    assert_eq!(event_of(STATE_GOP, p), DecodeEvent::Gop);
    assert_eq!(event_of(STATE_PICTURE, p), DecodeEvent::Picture(p));
    assert_eq!(event_of(STATE_SLICE, p), DecodeEvent::Slice);
    assert_eq!(event_of(STATE_END, p), DecodeEvent::Slice);
    assert_eq!(event_of(STATE_BUFFER, p), DecodeEvent::Buffer);
    assert!(is_known_state(STATE_SLICE) && is_known_state(STATE_BUFFER));
    assert!(!is_known_state(STATE_INVALID));
    assert!(!is_known_state(5));
    assert!(priming_stops(STATE_BUFFER) && priming_stops(STATE_END) && priming_stops(STATE_INVALID));
    assert!(!priming_stops(STATE_SLICE));
}

#[test]
fn tracker_follows_a_gop() {
    let gops = vec![gop(false, &[2, 0, 1])];
    let frames = gops[0].frames.clone();
    let mut t = DecodeTracker::new();
    assert_eq!(t.step(&gops, DecodeEvent::Sequence, true), DecodeStep::Continue);
    assert_eq!(t.step(&gops, DecodeEvent::Gop, true), DecodeStep::Continue);
    let mut emitted = Vec::new();
    for (k, f) in frames.iter().enumerate() {
        assert_eq!(t.step(&gops, pic(f), true), DecodeStep::Continue);
        match t.step(&gops, DecodeEvent::Slice, true) {
            DecodeStep::Emit { gop, slice, decode_index, blank } => {
                assert_eq!((gop, slice, decode_index as usize), (0, k, k));
                emitted.push(blank);
            }
            other => panic!("unexpected step {:?}", other),
        }
    }
    // the B frames shown before the open GOP's I frame are blanked
    assert_eq!(emitted, vec![false, true, true]);
    assert_eq!(t.step(&gops, DecodeEvent::Slice, true), DecodeStep::Done);
    assert!(t.finish(&gops));
}

#[test]
fn tracker_rejects_states_out_of_order() {
    let gops = vec![gop(true, &[0, 1])];
    let mut t = DecodeTracker::new();
    assert!(!t.can_step(&gops, DecodeEvent::Gop, false));
    assert!(!t.finish(&gops));
    assert!(t.can_step(&gops, DecodeEvent::Sequence, false));
    t.step(&gops, DecodeEvent::Sequence, false);
    t.step(&gops, DecodeEvent::Gop, false);
    // a picture that is not the one the index recorded
    let mut wrong = gops[0].frames[0];
    wrong.real_temporal_reference = 9;
    assert!(!t.can_step(&gops, pic(&wrong), false));
    t.step(&gops, pic(&gops[0].frames[0]), false);
    t.step(&gops, DecodeEvent::Slice, false);
    // a new sequence before the GOP's pictures are all decoded
    assert!(!t.can_step(&gops, DecodeEvent::Sequence, false));
    assert!(!t.finish(&gops));
    assert_eq!(t.step(&gops, DecodeEvent::Buffer, false), DecodeStep::Done);
}

#[test]
fn cached_frame_is_found_by_its_number() {
    let first = 1000u64;
    for pos in [0u8, 7, 255] {
        let key = cache_key(first, pos);
        assert_eq!(key as u64, first + pos as u64);
        assert_eq!(wanted_position(key, first), pos);
    }
}

#[test]
fn display_positions_number_each_frame_once() {
    let v = vobu(vec![gop(false, &[1, 0]), gop(true, &[0, 2, 1]), gop(true, &[0])]);
    let mut pos = display_positions(&v);
    pos.sort();
    assert_eq!(pos, vec![0, 1, 2, 3, 4, 5]);
}

#[test]
fn decoded_pictures_answer_or_go_to_cache() {
    let positions = vec![1u8, 0, 2];
    // frame 101 of a VOBU starting at frame 100 is display position 1
    let wanted = wanted_position(101, 100);
    assert_eq!(wanted, 1);
    assert_eq!(place_decoded(&positions, 0, wanted, 100), FramePlace::Answer);
    assert_eq!(place_decoded(&positions, 1, wanted, 100), FramePlace::Cache(100));
    assert_eq!(place_decoded(&positions, 2, wanted, 100), FramePlace::Cache(102));
    // the wanted picture needs no frame number of its own
    assert_eq!(place_decoded(&positions, 1, 0, i32::MAX as u64), FramePlace::Answer);
}

#[test]
fn frame_cache_cleared_at_eighty() {
    assert!(!cache_needs_clear(0));
    assert!(!cache_needs_clear(79));
    assert!(cache_needs_clear(80));
    assert!(cache_needs_clear(200));
}

#[test]
fn sample_aspect_ratio_choice() {
    assert_eq!(sar_choice(0, 1, Some((8, 9))), None);
    assert_eq!(sar_choice(1, 0, None), None);
    assert_eq!(sar_choice(16, 15, Some((8, 9))), Some((8, 9)));
    assert_eq!(sar_choice(16, 15, None), Some((16, 15)));
}
