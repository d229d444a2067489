use encoder_lib::bitmap::binarize;
use encoder_lib::{Block, Image, Params, ParamsError, RgbImage};

fn bitmap(width: u32, height: u32, lit: &[(u32, u32)]) -> RgbImage {
    let mut data = vec![0u8; (width * height * 3) as usize];
    for &(x, y) in lit {
        let at = ((y * width + x) * 3) as usize;
        data[at] = 255;
        data[at + 1] = 255;
        data[at + 2] = 255;
    }
    RgbImage::from_raw(width, height, data).unwrap()
}

#[test]
fn params_new_accepts_blocks_that_tile_the_video() {
    let params = Params::new(2, 1, 4, 2, 100).unwrap();
    assert_eq!(params.block_width(), 2);
    assert_eq!(params.block_height(), 1);
    assert_eq!(params.video_width(), 4);
    assert_eq!(params.video_height(), 2);
    assert_eq!(params.size_limit(), 100);
    assert_eq!(params.xblocks(), 2);
    assert_eq!(params.yblocks(), 2);
}

#[test]
fn params_new_rejects_a_width_that_does_not_divide() {
    assert_eq!(
        Params::new(3, 1, 4, 2, 100).err(),
        Some(ParamsError::WidthNotDivisible)
    );
}

#[test]
fn params_new_rejects_a_height_that_does_not_divide() {
    assert_eq!(
        Params::new(2, 4, 4, 6, 100).err(),
        Some(ParamsError::HeightNotDivisible)
    );
}

#[test]
fn params_new_reports_the_width_first() {
    assert_eq!(
        Params::new(3, 4, 4, 6, 100).err(),
        Some(ParamsError::WidthNotDivisible)
    );
}

#[test]
fn params_new_rejects_zero_dimensions() {
    assert_eq!(Params::new(0, 1, 4, 2, 1).err(), Some(ParamsError::ZeroDimension));
    assert_eq!(Params::new(1, 0, 4, 2, 1).err(), Some(ParamsError::ZeroDimension));
    assert_eq!(Params::new(1, 1, 0, 2, 1).err(), Some(ParamsError::ZeroDimension));
    assert_eq!(Params::new(1, 1, 4, 0, 1).err(), Some(ParamsError::ZeroDimension));
}

#[test]
fn blocks_tile_the_video_for_every_geometry() {
    for video_width in 1..=24u8 {
        for video_height in 1..=12u8 {
            for block_width in 1..=video_width {
                for block_height in 1..=video_height {
                    let made = Params::new(block_width, block_height, video_width, video_height, 0);
                    let tiles = video_width % block_width == 0 && video_height % block_height == 0;
                    assert_eq!(made.is_ok(), tiles);
                    if let Ok(params) = made {
                        assert_eq!(params.xblocks() * block_width, video_width);
                        assert_eq!(params.yblocks() * block_height, video_height);
                    }
                }
            }
        }
    }
}

#[test]
fn block_bounds_follow_the_block_size() {
    let params = Params::new(3, 2, 12, 6, 0).unwrap();
    assert_eq!(params.block_x0(0), 0);
    assert_eq!(params.block_x1(0), 3);
    assert_eq!(params.block_x0(3), 9);
    assert_eq!(params.block_x1(3), 12);
    assert_eq!(params.block_y0(2), 4);
    assert_eq!(params.block_y1(2), 6);
}

#[test]
fn block_index_counts_columns_of_blocks_first() {
    let params = Params::new(3, 2, 12, 6, 0).unwrap();
    assert_eq!(params.yblocks(), 3);
    assert_eq!(params.block_idx(0, 0), 0);
    assert_eq!(params.block_idx(0, 2), 2);
    assert_eq!(params.block_idx(1, 0), 3);
    assert_eq!(params.block_idx(3, 2), 11);
}

#[test]
fn block_index_is_dense() {
    let params = Params::new(2, 5, 14, 15, 0).unwrap();
    let mut seen = vec![false; 21];
    for bx in 0..params.xblocks() {
        for by in 0..params.yblocks() {
            let idx = params.block_idx(bx, by);
            assert!(!seen[idx]);
            seen[idx] = true;
        }
    }
    assert!(seen.iter().all(|s| *s));
}

#[test]
fn binarize_thresholds_at_half_of_the_range() {
    assert!(!binarize(0, 0, 0));
    assert!(binarize(255, 255, 255));
    assert!(!binarize(127, 127, 128));
    assert!(binarize(127, 128, 128));
    assert!(binarize(128, 128, 127));
    assert!(!binarize(255, 127, 0));
    assert!(binarize(255, 128, 0));
}

#[test]
fn binarize_agrees_with_the_mean_of_the_channels() {
    for r in (0..=255u16).step_by(5) {
        for g in (0..=255u16).step_by(3) {
            for b in 0..=255u16 {
                let mean = (r as f32 + g as f32 + b as f32) / 3.0 / 255.0;
                assert_eq!(binarize(r as u8, g as u8, b as u8), mean >= 0.5);
            }
        }
    }
}

#[test]
fn from_raw_rejects_too_few_samples() {
    assert!(RgbImage::from_raw(2, 2, vec![0; 11]).is_none());
    assert!(RgbImage::from_raw(2, 2, vec![0; 12]).is_some());
    assert!(RgbImage::from_raw(0, 5, vec![]).is_some());
}

#[test]
fn get_pixel_reads_rows_from_top_to_bottom() {
    let data: Vec<u8> = (0..18).collect();
    let img = RgbImage::from_raw(3, 2, data).unwrap();
    assert_eq!(img.width(), 3);
    assert_eq!(img.height(), 2);
    assert_eq!(img.get_pixel(0, 0), (0, 1, 2));
    assert_eq!(img.get_pixel(2, 0), (6, 7, 8));
    assert_eq!(img.get_pixel(0, 1), (9, 10, 11));
    assert_eq!(img.get_pixel(2, 1), (15, 16, 17));
}

#[test]
fn block_pixels_run_down_the_columns() {
    let params = Params::new(2, 2, 4, 2, 0).unwrap();
    let img = bitmap(4, 2, &[(1, 0), (2, 1)]);
    let left = Block::new(&params, &img, 0, 0);
    assert_eq!(left.pixels(), &vec![false, false, true, false]);
    let right = Block::new(&params, &img, 1, 0);
    assert_eq!(right.pixels(), &vec![false, true, false, false]);
    assert_eq!(left.len(), 4);
}

#[test]
fn image_holds_one_block_per_index() {
    let params = Params::new(2, 1, 4, 2, 0).unwrap();
    let img = bitmap(4, 2, &[(0, 0), (3, 1)]);
    let image = Image::new(&params, &img);
    assert_eq!(image.block_count(), 4);
    assert_eq!(image.block(0).pixels(), &vec![true, false]);
    assert_eq!(image.block(1).pixels(), &vec![false, false]);
    assert_eq!(image.block(2).pixels(), &vec![false, false]);
    assert_eq!(image.block(3).pixels(), &vec![false, true]);
    assert_eq!(
        image.pixels(),
        vec![true, false, false, false, false, false, false, true]
    );
}

#[test]
fn images_compare_by_their_pixels() {
    let params = Params::new(2, 1, 4, 2, 0).unwrap();
    let a = Image::new(&params, &bitmap(4, 2, &[(0, 0)]));
    let b = Image::new(&params, &bitmap(4, 2, &[(0, 0)]));
    let c = Image::new(&params, &bitmap(4, 2, &[(1, 0)]));
    assert!(a == b);
    assert!(a != c);
    assert!(a.same_as(&b));
    assert!(!a.same_as(&c));
    assert!(a.block(1) == c.block(1));
    assert!(a.block(0) != c.block(0));
}

#[test]
fn images_compare_after_binarization() {
    let params = Params::new(1, 1, 1, 1, 0).unwrap();
    let bright = RgbImage::from_raw(1, 1, vec![200, 200, 200]).unwrap();
    let white = RgbImage::from_raw(1, 1, vec![255, 255, 255]).unwrap();
    assert!(Image::new(&params, &bright) == Image::new(&params, &white));
}
