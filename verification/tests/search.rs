use encoder_lib::search::{is_better, perform_encoding, perform_encodings, pick_best, prepare_params_sets, search};
use encoder_lib::{EncoderError, Params, RgbImage, Source, Stats};
use std::collections::BTreeMap;

fn frame(width: u32, height: u32, dark: &[(u32, u32)]) -> RgbImage {
    let mut data = vec![255u8; (width * height * 3) as usize];
    for &(x, y) in dark {
        let at = ((y * width + x) * 3) as usize;
        data[at] = 0;
        data[at + 1] = 0;
        data[at + 2] = 0;
    }
    RgbImage::from_raw(width, height, data).unwrap()
}

fn stats(frames: usize, bytes: usize) -> Stats {
    Stats { bytes, frames, packets: BTreeMap::new() }
}

fn result(block_width: u8, frames: usize, bytes: usize) -> (Params, Stats, String) {
    (
        Params::new(block_width, 1, 12, 1, 0).unwrap(),
        stats(frames, bytes),
        String::new(),
    )
}

fn blocks(sets: &[Params]) -> Vec<(u8, u8)> {
    sets.iter().map(|p| (p.block_width(), p.block_height())).collect()
}

#[test]
fn params_sets_hold_every_divisor_pair_in_order() {
    assert_eq!(blocks(&prepare_params_sets(4, 2, 100)), vec![(1, 1), (2, 1)]);
    assert_eq!(
        blocks(&prepare_params_sets(6, 4, 100)),
        vec![(1, 1), (1, 2), (2, 1), (2, 2), (3, 1), (3, 2)]
    );
}

#[test]
fn params_sets_leave_out_the_whole_video_as_a_block() {
    assert!(prepare_params_sets(1, 1, 100).is_empty());
    assert!(prepare_params_sets(1, 8, 100).is_empty());
    assert!(prepare_params_sets(8, 1, 100).is_empty());
    assert_eq!(blocks(&prepare_params_sets(2, 2, 100)), vec![(1, 1)]);
}

#[test]
fn params_sets_carry_the_video_size_and_the_budget() {
    let sets = prepare_params_sets(84, 48, 31200);
    assert_eq!(sets.len(), 99);
    for params in &sets {
        assert_eq!(params.video_width(), 84);
        assert_eq!(params.video_height(), 48);
        assert_eq!(params.size_limit(), 31200);
        assert_eq!(84 % params.block_width(), 0);
        assert_eq!(48 % params.block_height(), 0);
        assert!(params.block_width() < 84);
        assert!(params.block_height() < 48);
    }
}

#[test]
fn better_means_more_frames_then_fewer_bytes() {
    assert!(is_better(&stats(3, 90), &stats(2, 10)));
    assert!(!is_better(&stats(2, 10), &stats(3, 90)));
    assert!(is_better(&stats(3, 80), &stats(3, 90)));
    assert!(!is_better(&stats(3, 90), &stats(3, 80)));
    assert!(!is_better(&stats(3, 90), &stats(3, 90)));
}

#[test]
fn pick_best_of_nothing_is_nothing() {
    assert!(pick_best(vec![]).is_none());
}

#[test]
fn pick_best_takes_the_most_frames() {
    let best = pick_best(vec![result(1, 4, 10), result(2, 9, 500), result(3, 7, 20)]).unwrap();
    assert_eq!(best.0.block_width(), 2);
    assert_eq!(best.1.frames, 9);
}

#[test]
fn pick_best_breaks_a_tie_by_fewer_bytes() {
    let best = pick_best(vec![result(1, 9, 400), result(2, 9, 300), result(3, 9, 350)]).unwrap();
    assert_eq!(best.0.block_width(), 2);
    assert_eq!(best.1.bytes, 300);
}

#[test]
fn pick_best_takes_the_last_of_equal_results() {
    let best = pick_best(vec![
        result(1, 9, 300),
        result(2, 8, 100),
        result(3, 9, 300),
        result(4, 9, 301),
    ])
    .unwrap();
    assert_eq!(best.0.block_width(), 3);
}

#[test]
fn encoding_stops_at_the_first_rejected_frame() {
    let source = Source::new(vec![frame(4, 2, &[]), frame(4, 2, &[(2, 1)]), frame(4, 2, &[])]);
    let params = Params::new(2, 1, 4, 2, 8).unwrap();
    let (used, stats, code) = perform_encoding(&source, params).unwrap();
    assert_eq!(used.block_width(), 2);
    assert_eq!(stats.frames, 1);
    assert_eq!(stats.bytes, 7);
    assert_eq!(
        code,
        "const uint8_t video[] PROGMEM = {\n  0x00, 0x02, 0x01, 0x04, 0x02, 0x01, 0xff, \n};\n"
    );
}

#[test]
fn encoding_writes_every_frame_that_fits() {
    let source = Source::new(vec![frame(4, 2, &[]), frame(4, 2, &[]), frame(4, 2, &[(0, 0)])]);
    let params = Params::new(2, 1, 4, 2, 1000).unwrap();
    let (_, stats, _) = perform_encoding(&source, params).unwrap();
    assert_eq!(stats.frames, 3);
    assert_eq!(stats.bytes, 10);
}

#[test]
fn encoding_of_no_frames_is_the_geometry_packet() {
    let source = Source::new(vec![]);
    let params = Params::new(2, 1, 4, 2, 1000).unwrap();
    let (_, stats, _) = perform_encoding(&source, params).unwrap();
    assert_eq!(stats.frames, 0);
    assert_eq!(stats.bytes, 5);
}

#[test]
fn encoding_fails_without_room_for_the_geometry_packet() {
    let source = Source::new(vec![frame(4, 2, &[])]);
    let params = Params::new(2, 1, 4, 2, 3).unwrap();
    assert_eq!(
        perform_encoding(&source, params).err(),
        Some(EncoderError::InitPacketTooLarge)
    );
}

#[test]
fn encodings_keep_the_order_of_the_geometries() {
    let source = Source::new(vec![frame(4, 2, &[]), frame(4, 2, &[(1, 0)])]);
    let results = perform_encodings(&source, prepare_params_sets(4, 2, 1000)).unwrap();
    assert_eq!(results.len(), 2);
    assert_eq!(results[0].0.block_width(), 1);
    assert_eq!(results[1].0.block_width(), 2);
    assert_eq!(results[0].1.frames, 2);
    assert_eq!(results[1].1.frames, 2);
}

#[test]
fn encodings_fail_as_a_whole() {
    let source = Source::new(vec![frame(4, 2, &[])]);
    assert_eq!(
        perform_encodings(&source, prepare_params_sets(4, 2, 4)).err(),
        Some(EncoderError::InitPacketTooLarge)
    );
}

#[test]
fn search_returns_a_geometry_that_tiles_the_video() {
    let mut frames = Vec::new();
    for step in 0..40u32 {
        frames.push(frame(12, 8, &[(step % 12, step % 8), ((step * 5) % 12, (step * 3) % 8)]));
    }
    let source = Source::new(frames);
    for limit in [6u16, 20, 60, 200] {
        let (params, stats, _) = search(&source, 12, 8, limit).unwrap().unwrap();
        assert_eq!(params.video_width(), 12);
        assert_eq!(params.video_height(), 8);
        assert_eq!(params.size_limit(), limit);
        assert_eq!(12 % params.block_width(), 0);
        assert_eq!(8 % params.block_height(), 0);
        assert_eq!(params.xblocks() * params.block_width(), 12);
        assert_eq!(params.yblocks() * params.block_height(), 8);
        assert!(stats.bytes <= limit as usize);
    }
}

#[test]
fn search_result_is_not_beaten_by_any_geometry() {
    let mut frames = Vec::new();
    for step in 0..30u32 {
        frames.push(frame(6, 4, &[(step % 6, step % 4)]));
    }
    let source = Source::new(frames);
    let (_, best, _) = search(&source, 6, 4, 40).unwrap().unwrap();
    for params in prepare_params_sets(6, 4, 40) {
        let (_, other, _) = perform_encoding(&source, params).unwrap();
        assert!(!is_better(&other, &best));
    }
}

#[test]
fn search_of_a_video_too_small_to_cut_finds_nothing() {
    let source = Source::new(vec![frame(1, 4, &[])]);
    assert!(search(&source, 1, 4, 100).unwrap().is_none());
}

#[test]
fn search_fails_without_room_for_a_geometry_packet() {
    let source = Source::new(vec![frame(4, 2, &[])]);
    assert_eq!(search(&source, 4, 2, 2).err(), Some(EncoderError::InitPacketTooLarge));
}

#[test]
fn source_checks_the_size_of_its_frames() {
    let source = Source::new(vec![frame(4, 2, &[]), frame(4, 2, &[(1, 1)])]);
    assert_eq!(source.images().len(), 2);
    assert!(source.has_size(4, 2));
    assert!(!source.has_size(2, 4));
    let mixed = Source::new(vec![frame(4, 2, &[]), frame(2, 2, &[])]);
    assert!(!mixed.has_size(4, 2));
}
