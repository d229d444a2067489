//! One rectangular tile of a monochrome frame.

use crate::bitmap::RgbImage;
use crate::params::{lemma_split, Params};
use vstd::prelude::*;

verus! {

/// The monochrome pixels of one block, column by column: all pixels of the
/// leftmost column from top to bottom, then the next column, and so on.
#[derive(Clone, Debug)]
pub struct Block {
    pixels: Vec<bool>,
}

impl View for Block {
    type V = Seq<bool>;

    closed spec fn view(&self) -> Seq<bool> {
        self.pixels@
    }
}

/// The pixels of block `(bx, by)` of `img` under geometry `params`: entry
/// `i` is the pixel in column `i / block_height` and row `i % block_height`
/// of the block.
pub open spec fn block_pixels(params: &Params, img: &RgbImage, bx: int, by: int) -> Seq<bool> {
    Seq::new(
        params.block_len() as nat,
        |i: int| img.lit(bx * params.bw() + i / params.bh(), by * params.bh() + i % params.bh()),
    )
}

/// Whether two boolean vectors hold the same entries.
pub fn same_bits(a: &Vec<bool>, b: &Vec<bool>) -> (same: bool)
    ensures
        same == (a@ == b@),
{
    if a.len() != b.len() {
        return false;
    }
    let mut i: usize = 0;
    while i < a.len()
        invariant
            a.len() == b.len(),
            i <= a.len(),
            forall|k: int| 0 <= k < i ==> a@[k] == b@[k],
        decreases a.len() - i,
    {
        if a[i] != b[i] {
            return false;
        }
        i += 1;
    }
    assert(a@ =~= b@);
    true
}

impl Block {
    /// Reads block `(bx, by)` out of `img`, one monochrome pixel per colour pixel.
    pub fn new(params: &Params, img: &RgbImage, bx: u8, by: u8) -> (block: Block)
        requires
            params.wf(),
            img.wf(),
            img.spec_width() == params.vw(),
            img.spec_height() == params.vh(),
            bx < params.spec_xblocks(),
            by < params.spec_yblocks(),
        ensures
            block@ == block_pixels(params, img, bx as int, by as int),
    {
        let x0 = params.block_x0(bx);
        let x1 = params.block_x1(bx);
        let y0 = params.block_y0(by);
        let y1 = params.block_y1(by);
        let ghost bh = params.bh();
        let mut pixels: Vec<bool> = Vec::new();
        let mut x: u8 = x0;
        while x < x1
            invariant
                params.wf(),
                img.wf(),
                img.spec_width() == params.vw(),
                img.spec_height() == params.vh(),
                bh == params.bh(),
                x0 == bx * params.bw(),
                x1 == x0 + params.bw(),
                y0 == by * bh,
                y1 == y0 + bh,
                x1 <= params.vw(),
                y1 <= params.vh(),
                x0 <= x <= x1,
                pixels.len() == (x - x0) * bh,
                forall|i: int|
                    0 <= i < pixels.len() ==> #[trigger] pixels@[i] == img.lit(
                        x0 + i / bh,
                        y0 + i % bh,
                    ),
            decreases x1 - x,
        {
            let mut y: u8 = y0;
            while y < y1
                invariant
                    params.wf(),
                    img.wf(),
                    img.spec_width() == params.vw(),
                    img.spec_height() == params.vh(),
                    bh == params.bh(),
                    y1 == y0 + bh,
                    x1 <= params.vw(),
                    y1 <= params.vh(),
                    x0 <= x < x1,
                    y0 <= y <= y1,
                    pixels.len() == (x - x0) * bh + (y - y0),
                    forall|i: int|
                        0 <= i < pixels.len() ==> #[trigger] pixels@[i] == img.lit(
                            x0 + i / bh,
                            y0 + i % bh,
                        ),
                decreases y1 - y,
            {
                let on = img.is_lit(x as u32, y as u32);
                proof {
                    lemma_split(x - x0, y - y0, bh);
                }
                pixels.push(on);
                y += 1;
            }
            proof {
                assert((x + 1 - x0) * bh == (x - x0) * bh + bh) by (nonlinear_arith);
            }
            x += 1;
        }
        let block = Block { pixels };
        assert(block@ =~= block_pixels(params, img, bx as int, by as int));
        block
    }

    /// The pixels of the block, column by column.
    pub fn pixels(&self) -> (r: &Vec<bool>)
        ensures
            r@ == self@,
    {
        &self.pixels
    }

    /// Number of pixels in the block.
    pub fn len(&self) -> (n: usize)
        ensures
            n == self@.len(),
    {
        self.pixels.len()
    }
}

impl PartialEq for Block {
    /// Two blocks are equal when they hold the same pixels.
    fn eq(&self, other: &Block) -> (same: bool) {
        same_bits(&self.pixels, &other.pixels)
    }
}

impl Eq for Block {

}

impl vstd::std_specs::cmp::PartialEqSpecImpl for Block {
    open spec fn obeys_eq_spec() -> bool {
        true
    }

    open spec fn eq_spec(&self, other: &Block) -> bool {
        self@ == other@
    }
}

} // verus!
