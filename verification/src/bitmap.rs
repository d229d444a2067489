//! A colour bitmap held as plain bytes: the form in which frames reach the encoder.

use vstd::prelude::*;

verus! {

/// A bitmap of 8-bit red, green and blue samples, rows from top to bottom,
/// pixels from left to right within a row, three samples per pixel.
#[derive(Clone, Debug)]
pub struct RgbImage {
    width: u32,
    height: u32,
    data: Vec<u8>,
}

impl RgbImage {
    /// Width in pixels.
    pub closed spec fn spec_width(&self) -> int {
        self.width as int
    }

    /// Height in pixels.
    pub closed spec fn spec_height(&self) -> int {
        self.height as int
    }

    /// The samples, three per pixel, row by row.
    pub closed spec fn samples(&self) -> Seq<u8> {
        self.data@
    }

    /// The dimensions fit 32 bits and every pixel has its three samples.
    pub open spec fn wf(&self) -> bool {
        &&& 0 <= self.spec_width() <= u32::MAX
        &&& 0 <= self.spec_height() <= u32::MAX
        &&& 3 * (self.spec_width() * self.spec_height()) <= self.samples().len()
    }

    /// Position in `samples` of the first sample of pixel `(x, y)`.
    pub open spec fn offset(&self, x: int, y: int) -> int {
        3 * (y * self.spec_width() + x)
    }

    /// Sum of the red, green and blue samples of pixel `(x, y)`.
    pub open spec fn brightness(&self, x: int, y: int) -> int {
        self.samples()[self.offset(x, y)] + self.samples()[self.offset(x, y) + 1]
            + self.samples()[self.offset(x, y) + 2]
    }

    /// Whether pixel `(x, y)` is on in the monochrome picture: the mean of
    /// its three samples is at least half of the sample range.
    pub open spec fn lit(&self, x: int, y: int) -> bool {
        is_bright(self.brightness(x, y))
    }

    /// Wraps `data` as a bitmap of `width` by `height` pixels; `None` when
    /// `data` holds fewer than three samples per pixel.
    pub fn from_raw(width: u32, height: u32, data: Vec<u8>) -> (res: Option<RgbImage>)
        ensures
            res is Some <==> 3 * (width * height) <= data@.len(),
            res is Some ==> {
                &&& res->0.wf()
                &&& res->0.spec_width() == width
                &&& res->0.spec_height() == height
                &&& res->0.samples() == data@
            },
    {
        proof {
            lemma_area_bound(width as int, height as int);
        }
        let needed: u128 = 3 * ((width as u128) * (height as u128));
        if needed <= data.len() as u128 {
            Some(RgbImage { width, height, data })
        } else {
            None
        }
    }

    /// Width in pixels.
    pub fn width(&self) -> (r: u32)
        ensures
            r == self.spec_width(),
    {
        self.width
    }

    /// Height in pixels.
    pub fn height(&self) -> (r: u32)
        ensures
            r == self.spec_height(),
    {
        self.height
    }

    /// Whether every pixel has its three samples.
    pub fn is_complete(&self) -> (ok: bool)
        ensures
            ok == self.wf(),
    {
        proof {
            lemma_area_bound(self.width as int, self.height as int);
        }
        let needed: u128 = 3 * ((self.width as u128) * (self.height as u128));
        needed <= self.data.len() as u128
    }

    /// The red, green and blue samples of pixel `(x, y)`.
    pub fn get_pixel(&self, x: u32, y: u32) -> (rgb: (u8, u8, u8))
        requires
            self.wf(),
            x < self.spec_width(),
            y < self.spec_height(),
        ensures
            rgb.0 == self.samples()[self.offset(x as int, y as int)],
            rgb.1 == self.samples()[self.offset(x as int, y as int) + 1],
            rgb.2 == self.samples()[self.offset(x as int, y as int) + 2],
    {
        let total: usize = self.data.len();
        proof {
            let w = self.width as int;
            let h = self.height as int;
            lemma_pixel_inside(x as int, y as int, w, h);
            assert(3 * (y * w + x) + 2 < total);
        }
        let at: usize = 3 * ((y as usize) * (self.width as usize) + (x as usize));
        (self.data[at], self.data[at + 1], self.data[at + 2])
    }

    /// Whether pixel `(x, y)` is on in the monochrome picture.
    pub fn is_lit(&self, x: u32, y: u32) -> (on: bool)
        requires
            self.wf(),
            x < self.spec_width(),
            y < self.spec_height(),
        ensures
            on == self.lit(x as int, y as int),
    {
        let (r, g, b) = self.get_pixel(x, y);
        binarize(r, g, b)
    }
}

/// Whether a sum of three samples has a mean of at least half of the sample
/// range: `sum / 3 / 255 >= 1 / 2`, which in whole numbers is `2 * sum >= 765`.
pub open spec fn is_bright(sum: int) -> bool {
    2 * sum >= 3 * 255
}

/// Turns one colour pixel into one monochrome pixel.
pub fn binarize(r: u8, g: u8, b: u8) -> (on: bool)
    ensures
        on == is_bright(r + g + b),
{
    let sum: u16 = r as u16 + g as u16 + b as u16;
    2 * sum >= 765
}

/// The samples of a bitmap of 32-bit dimensions number less than 2^66.
pub proof fn lemma_area_bound(w: int, h: int)
    requires
        0 <= w <= u32::MAX,
        0 <= h <= u32::MAX,
    ensures
        0 <= w * h <= 0xffff_fffe_0000_0001,
{
    assert(0 <= w * h <= 0xffff_fffe_0000_0001) by (nonlinear_arith)
        requires
            0 <= w <= 0xffff_ffff,
            0 <= h <= 0xffff_ffff,
    ;
}

/// A pixel inside a bitmap has a position below the number of pixels.
pub proof fn lemma_pixel_inside(x: int, y: int, w: int, h: int)
    requires
        0 <= x < w,
        0 <= y < h,
    ensures
        0 <= y * w,
        y * w + x < w * h,
{
    assert(0 <= y * w && y * w + x < w * h) by (nonlinear_arith)
        requires
            0 <= x < w,
            0 <= y < h,
    ;
}

} // verus!
