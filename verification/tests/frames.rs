use encoder_lib::encoder::select_packet;
use encoder_lib::{DFrame, Frame, FrameCtxt, IFrame, Image, Params, PbFrame, PcFrame, PdFrame, RgbImage};

fn frame(width: u32, height: u32, dark: &[(u32, u32)]) -> RgbImage {
    let mut data = vec![255u8; (width * height * 3) as usize];
    for &(x, y) in dark {
        let at = ((y * width + x) * 3) as usize;
        data[at] = 0;
        data[at + 1] = 0;
        data[at + 2] = 0;
    }
    RgbImage::from_raw(width, height, data).unwrap()
}

fn small() -> Params {
    Params::new(2, 1, 4, 2, 1000).unwrap()
}

#[test]
fn intra_payload_is_the_packed_pixel_stream() {
    let params = small();
    let curr = Image::new(&params, &frame(4, 2, &[(0, 0)]));
    let ctxt = FrameCtxt { params: &params, prev: None, curr: &curr };
    assert_eq!(IFrame::build(ctxt).unwrap().serialize(), vec![0xfe]);
    assert_eq!(IFrame::build_packet(ctxt).unwrap().serialize(), vec![1, 0xfe]);
}

#[test]
fn intra_applies_with_and_without_a_previous_frame() {
    let params = small();
    let prev = Image::new(&params, &frame(4, 2, &[]));
    let curr = Image::new(&params, &frame(4, 2, &[(3, 1)]));
    let first = FrameCtxt { params: &params, prev: None, curr: &curr };
    let later = FrameCtxt { params: &params, prev: Some(&prev), curr: &curr };
    assert_eq!(IFrame::build(first).unwrap().serialize(), vec![0x7f]);
    assert_eq!(IFrame::build(later).unwrap().serialize(), vec![0x7f]);
}

#[test]
fn duplicate_applies_only_to_an_equal_previous_frame() {
    let params = small();
    let prev = Image::new(&params, &frame(4, 2, &[(1, 1)]));
    let same = Image::new(&params, &frame(4, 2, &[(1, 1)]));
    let other = Image::new(&params, &frame(4, 2, &[(1, 0)]));
    let no_prev = FrameCtxt { params: &params, prev: None, curr: &same };
    let equal = FrameCtxt { params: &params, prev: Some(&prev), curr: &same };
    let differs = FrameCtxt { params: &params, prev: Some(&prev), curr: &other };
    assert!(DFrame::build(no_prev).is_none());
    assert!(DFrame::build(differs).is_none());
    let marker = DFrame::build(equal).unwrap();
    assert_eq!(marker.serialize(), Vec::<u8>::new());
    assert_eq!(DFrame::build_packet(equal).unwrap().serialize(), vec![2]);
}

#[test]
fn deltas_apply_only_to_a_changed_previous_frame() {
    let params = small();
    let prev = Image::new(&params, &frame(4, 2, &[]));
    let same = Image::new(&params, &frame(4, 2, &[]));
    let other = Image::new(&params, &frame(4, 2, &[(0, 0)]));
    let no_prev = FrameCtxt { params: &params, prev: None, curr: &other };
    let equal = FrameCtxt { params: &params, prev: Some(&prev), curr: &same };
    let differs = FrameCtxt { params: &params, prev: Some(&prev), curr: &other };
    assert!(<PbFrame as Frame>::build(no_prev).is_none());
    assert!(<PcFrame as Frame>::build(no_prev).is_none());
    assert!(<PdFrame as Frame>::build(no_prev).is_none());
    assert!(<PbFrame as Frame>::build(equal).is_none());
    assert!(<PcFrame as Frame>::build(equal).is_none());
    assert!(<PdFrame as Frame>::build(equal).is_none());
    assert_eq!(PbFrame::build_packet(differs).unwrap().serialize(), vec![3, 1, 1, 2]);
    assert_eq!(PcFrame::build_packet(differs).unwrap().serialize(), vec![4, 0, 1]);
    assert_eq!(PdFrame::build_packet(differs).unwrap().serialize(), vec![5, 0]);
}

#[test]
fn block_mask_delta_is_flags_then_masks() {
    let params = small();
    let prev = Image::new(&params, &frame(4, 2, &[]));
    let one = Image::new(&params, &frame(4, 2, &[(3, 1)]));
    let two = Image::new(&params, &frame(4, 2, &[(0, 0), (3, 1)]));
    assert_eq!(PbFrame::build(&params, &prev, &one).serialize(), vec![8, 2]);
    assert_eq!(PbFrame::build(&params, &prev, &two).serialize(), vec![9, 1, 2]);
}

#[test]
fn block_mask_delta_of_equal_frames_is_the_empty_flags() {
    let params = small();
    let prev = Image::new(&params, &frame(4, 2, &[(2, 0)]));
    let curr = Image::new(&params, &frame(4, 2, &[(2, 0)]));
    assert_eq!(PbFrame::build(&params, &prev, &curr).serialize(), vec![0]);
}

#[test]
fn block_mask_delta_packs_every_mask_by_itself() {
    let params = Params::new(1, 3, 2, 3, 1000).unwrap();
    let prev = Image::new(&params, &frame(2, 3, &[]));
    let curr = Image::new(&params, &frame(2, 3, &[(0, 2), (1, 0)]));
    assert_eq!(PbFrame::build(&params, &prev, &curr).serialize(), vec![3, 4, 1]);
}

#[test]
fn sparse_block_delta_is_index_then_mask() {
    let params = small();
    let prev = Image::new(&params, &frame(4, 2, &[]));
    let one = Image::new(&params, &frame(4, 2, &[(3, 1)]));
    let two = Image::new(&params, &frame(4, 2, &[(0, 0), (3, 1)]));
    assert_eq!(PcFrame::build(&params, &prev, &one).serialize(), vec![3, 2]);
    assert_eq!(PcFrame::build(&params, &prev, &two).serialize(), vec![0, 1, 3, 2]);
}

#[test]
fn sparse_block_delta_masks_span_whole_bytes() {
    let params = Params::new(3, 3, 3, 6, 1000).unwrap();
    let prev = Image::new(&params, &frame(3, 6, &[]));
    let curr = Image::new(&params, &frame(3, 6, &[(2, 5), (0, 3)]));
    assert_eq!(PcFrame::build(&params, &prev, &curr).serialize(), vec![1, 1, 1]);
}

#[test]
fn sparse_block_delta_keeps_the_low_byte_of_a_large_index() {
    let params = Params::new(1, 1, 20, 15, 1000).unwrap();
    let prev = Image::new(&params, &frame(20, 15, &[]));
    let curr = Image::new(&params, &frame(20, 15, &[(19, 14), (17, 1)]));
    assert_eq!(
        PcFrame::build(&params, &prev, &curr).serialize(),
        vec![0, 1, 43, 1]
    );
}

#[test]
fn sparse_pixel_delta_lists_the_changed_positions() {
    let params = small();
    let prev = Image::new(&params, &frame(4, 2, &[]));
    let one = Image::new(&params, &frame(4, 2, &[(3, 1)]));
    let two = Image::new(&params, &frame(4, 2, &[(0, 0), (3, 1)]));
    let none = Image::new(&params, &frame(4, 2, &[]));
    assert_eq!(PdFrame::build(&prev, &one).serialize(), vec![7]);
    assert_eq!(PdFrame::build(&prev, &two).serialize(), vec![0, 7]);
    assert_eq!(PdFrame::build(&prev, &none).serialize(), Vec::<u8>::new());
}

#[test]
fn sparse_pixel_delta_keeps_the_low_byte_of_position_299() {
    let params = Params::new(30, 10, 30, 10, 1000).unwrap();
    let prev = Image::new(&params, &frame(30, 10, &[]));
    let curr = Image::new(&params, &frame(30, 10, &[(29, 9)]));
    assert_eq!(curr.pixels().len(), 300);
    assert_eq!(curr.pixels().iter().position(|p| !*p), Some(299));
    assert_eq!(PdFrame::build(&prev, &curr).serialize(), vec![43]);
}

#[test]
fn sparse_pixel_delta_cannot_tell_position_43_from_299() {
    let params = Params::new(30, 10, 30, 10, 1000).unwrap();
    let prev = Image::new(&params, &frame(30, 10, &[]));
    let far = Image::new(&params, &frame(30, 10, &[(29, 9)]));
    let near = Image::new(&params, &frame(30, 10, &[(4, 3)]));
    assert_eq!(near.pixels().iter().position(|p| !*p), Some(43));
    assert_eq!(
        PdFrame::build(&prev, &far).serialize(),
        PdFrame::build(&prev, &near).serialize()
    );
}

#[test]
fn selection_takes_the_only_offer_for_a_first_frame() {
    let params = small();
    let curr = Image::new(&params, &frame(4, 2, &[]));
    let ctxt = FrameCtxt { params: &params, prev: None, curr: &curr };
    assert_eq!(select_packet(ctxt).serialize(), vec![1, 0xff]);
}

#[test]
fn selection_takes_the_duplicate_marker_for_an_equal_frame() {
    let params = small();
    let prev = Image::new(&params, &frame(4, 2, &[(1, 0)]));
    let curr = Image::new(&params, &frame(4, 2, &[(1, 0)]));
    let ctxt = FrameCtxt { params: &params, prev: Some(&prev), curr: &curr };
    assert_eq!(select_packet(ctxt).serialize(), vec![2]);
}

#[test]
fn selection_never_takes_the_duplicate_marker_for_a_changed_frame() {
    let params = small();
    let prev = Image::new(&params, &frame(4, 2, &[]));
    for x in 0..4 {
        for y in 0..2 {
            let curr = Image::new(&params, &frame(4, 2, &[(x, y)]));
            let ctxt = FrameCtxt { params: &params, prev: Some(&prev), curr: &curr };
            assert_ne!(select_packet(ctxt).ty(), 2);
        }
    }
}

#[test]
fn selection_keeps_intra_on_a_tie() {
    let params = small();
    let prev = Image::new(&params, &frame(4, 2, &[]));
    let curr = Image::new(&params, &frame(4, 2, &[(0, 0)]));
    let ctxt = FrameCtxt { params: &params, prev: Some(&prev), curr: &curr };
    assert_eq!(select_packet(ctxt).serialize(), vec![1, 0xfe]);
}

#[test]
fn selection_takes_a_strictly_shorter_delta() {
    let params = Params::new(2, 2, 8, 4, 1000).unwrap();
    let prev = Image::new(&params, &frame(8, 4, &[]));
    let curr = Image::new(&params, &frame(8, 4, &[(0, 0)]));
    let ctxt = FrameCtxt { params: &params, prev: Some(&prev), curr: &curr };
    assert_eq!(IFrame::build_packet(ctxt).unwrap().serialize(), vec![1, 0xfe, 0xff, 0xff, 3]);
    assert_eq!(PbFrame::build_packet(ctxt).unwrap().serialize(), vec![3, 1, 1, 2]);
    assert_eq!(PcFrame::build_packet(ctxt).unwrap().serialize(), vec![4, 0, 1]);
    assert_eq!(select_packet(ctxt).serialize(), vec![5, 0]);
}

#[test]
fn selection_prefers_the_block_mask_delta_over_equally_long_sparse_deltas() {
    let params = Params::new(2, 2, 8, 4, 1000).unwrap();
    let prev = Image::new(&params, &frame(8, 4, &[]));
    let curr = Image::new(&params, &frame(8, 4, &[(0, 0), (1, 1)]));
    let ctxt = FrameCtxt { params: &params, prev: Some(&prev), curr: &curr };
    assert_eq!(PbFrame::build_packet(ctxt).unwrap().serialize(), vec![3, 1, 9]);
    assert_eq!(PcFrame::build_packet(ctxt).unwrap().serialize(), vec![4, 0, 9]);
    assert_eq!(PdFrame::build_packet(ctxt).unwrap().serialize(), vec![5, 0, 3]);
    assert_eq!(select_packet(ctxt).serialize(), vec![3, 1, 9]);
}

#[test]
fn selection_prefers_the_sparse_block_delta_over_an_equally_long_sparse_pixel_delta() {
    let params = Params::new(2, 2, 8, 8, 1000).unwrap();
    let prev = Image::new(&params, &frame(8, 8, &[]));
    let curr = Image::new(&params, &frame(8, 8, &[(0, 0), (1, 1)]));
    let ctxt = FrameCtxt { params: &params, prev: Some(&prev), curr: &curr };
    assert_eq!(
        IFrame::build_packet(ctxt).unwrap().serialize(),
        vec![1, 0xf6, 0xff, 0xff, 7]
    );
    assert_eq!(PbFrame::build_packet(ctxt).unwrap().serialize(), vec![3, 1, 0, 9]);
    assert_eq!(PcFrame::build_packet(ctxt).unwrap().serialize(), vec![4, 0, 9]);
    assert_eq!(PdFrame::build_packet(ctxt).unwrap().serialize(), vec![5, 0, 3]);
    assert_eq!(select_packet(ctxt).serialize(), vec![4, 0, 9]);
}
