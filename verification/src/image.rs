//! A monochrome frame as a sequence of blocks.

use crate::bitmap::RgbImage;
use crate::block::{block_pixels, same_bits, Block};
use crate::params::{lemma_split, Params};
use vstd::prelude::*;

verus! {

/// A monochrome frame: one block per block index of the geometry it was
/// built with.
#[derive(Clone, Debug)]
pub struct Image {
    blocks: Vec<Block>,
}

impl View for Image {
    type V = Seq<Seq<bool>>;

    closed spec fn view(&self) -> Seq<Seq<bool>> {
        Seq::new(self.blocks@.len(), |k: int| self.blocks@[k]@)
    }
}

/// The blocks of `img` under geometry `params`, in block-index order: block
/// `k` is the one in block column `k / yblocks` and block row `k % yblocks`.
pub open spec fn image_blocks(params: &Params, img: &RgbImage) -> Seq<Seq<bool>> {
    Seq::new(
        params.block_count() as nat,
        |k: int| block_pixels(params, img, k / params.spec_yblocks(), k % params.spec_yblocks()),
    )
}

/// The pixels of the first `n` blocks, one block after the other.
pub open spec fn flat_prefix(blocks: Seq<Seq<bool>>, n: int) -> Seq<bool>
    decreases n,
{
    if n <= 0 {
        Seq::empty()
    } else {
        flat_prefix(blocks, n - 1) + blocks[n - 1]
    }
}

/// The pixel stream of a frame: its blocks' pixels in block-index order.
pub open spec fn flat(blocks: Seq<Seq<bool>>) -> Seq<bool> {
    flat_prefix(blocks, blocks.len() as int)
}

/// Whether `blocks` has the shape that geometry `params` gives a frame.
pub open spec fn fits(blocks: Seq<Seq<bool>>, params: &Params) -> bool {
    &&& blocks.len() == params.block_count()
    &&& forall|k: int| 0 <= k < blocks.len() ==> (#[trigger] blocks[k]).len() == params.block_len()
}

/// In the pixel stream of blocks of one length, pixel `i` of block `k`
/// stands at `k * len + i`.
pub proof fn lemma_flat_prefix(blocks: Seq<Seq<bool>>, len: int, n: int)
    requires
        0 <= len,
        0 <= n <= blocks.len(),
        forall|k: int| 0 <= k < blocks.len() ==> (#[trigger] blocks[k]).len() == len,
    ensures
        flat_prefix(blocks, n).len() == n * len,
        forall|k: int, i: int|
            0 <= k < n && 0 <= i < len ==> flat_prefix(blocks, n)[k * len + i]
                == #[trigger] blocks[k][i],
    decreases n,
{
    if n <= 0 {
        assert(n * len == 0) by (nonlinear_arith)
            requires
                n == 0,
        ;
    } else {
        lemma_flat_prefix(blocks, len, n - 1);
        assert(n * len == (n - 1) * len + len) by (nonlinear_arith);
        assert(blocks[n - 1].len() == len);
        assert(flat_prefix(blocks, n) == flat_prefix(blocks, n - 1) + blocks[n - 1]);
        assert forall|k: int, i: int| 0 <= k < n && 0 <= i < len implies flat_prefix(blocks, n)[k
            * len + i] == #[trigger] blocks[k][i] by {
            if k < n - 1 {
                assert(k * len + i < (n - 1) * len) by (nonlinear_arith)
                    requires
                        0 <= k < n - 1,
                        0 <= i < len,
                ;
                assert(0 <= k * len) by (nonlinear_arith)
                    requires
                        0 <= k,
                        0 <= len,
                ;
                assert(flat_prefix(blocks, n)[k * len + i] == flat_prefix(blocks, n - 1)[k * len
                    + i]);
            } else {
                assert(k * len + i - (n - 1) * len == i);
            }
        }
    }
}

/// Two frames of one shape are equal exactly when their pixel streams are.
pub proof fn lemma_flat_injective(a: Seq<Seq<bool>>, b: Seq<Seq<bool>>, len: int)
    requires
        0 <= len,
        a.len() == b.len(),
        forall|k: int| 0 <= k < a.len() ==> (#[trigger] a[k]).len() == len,
        forall|k: int| 0 <= k < b.len() ==> (#[trigger] b[k]).len() == len,
    ensures
        (flat(a) == flat(b)) <==> (a == b),
{
    if flat(a) == flat(b) {
        lemma_flat_prefix(a, len, a.len() as int);
        lemma_flat_prefix(b, len, b.len() as int);
        assert forall|k: int| 0 <= k < a.len() implies #[trigger] a[k] == b[k] by {
            assert forall|i: int| 0 <= i < len implies a[k][i] == b[k][i] by {
                assert(flat(a)[k * len + i] == a[k][i]);
                assert(flat(b)[k * len + i] == b[k][i]);
            }
            assert(a[k] =~= b[k]);
        }
        assert(a =~= b);
    }
}

impl Image {
    /// Binarizes `img` and cuts it into the blocks of geometry `params`.
    pub fn new(params: &Params, img: &RgbImage) -> (image: Image)
        requires
            params.wf(),
            img.wf(),
            img.spec_width() == params.vw(),
            img.spec_height() == params.vh(),
        ensures
            image@ == image_blocks(params, img),
            fits(image@, params),
    {
        let xblocks = params.xblocks();
        let yblocks = params.yblocks();
        let ghost yb = params.spec_yblocks();
        let mut blocks: Vec<Block> = Vec::new();
        let mut bx: u8 = 0;
        while bx < xblocks
            invariant
                params.wf(),
                img.wf(),
                img.spec_width() == params.vw(),
                img.spec_height() == params.vh(),
                xblocks == params.spec_xblocks(),
                yblocks == yb,
                yb == params.spec_yblocks(),
                bx <= xblocks,
                blocks.len() == bx * yb,
                forall|k: int|
                    0 <= k < blocks.len() ==> (#[trigger] blocks@[k])@ == block_pixels(
                        params,
                        img,
                        k / yb,
                        k % yb,
                    ),
            decreases xblocks - bx,
        {
            let mut by: u8 = 0;
            while by < yblocks
                invariant
                    params.wf(),
                    img.wf(),
                    img.spec_width() == params.vw(),
                    img.spec_height() == params.vh(),
                    xblocks == params.spec_xblocks(),
                    yblocks == yb,
                    yb == params.spec_yblocks(),
                    bx < xblocks,
                    by <= yblocks,
                    blocks.len() == bx * yb + by,
                    forall|k: int|
                        0 <= k < blocks.len() ==> (#[trigger] blocks@[k])@ == block_pixels(
                            params,
                            img,
                            k / yb,
                            k % yb,
                        ),
                decreases yblocks - by,
            {
                let block = Block::new(params, img, bx, by);
                proof {
                    lemma_split(bx as int, by as int, yb);
                }
                blocks.push(block);
                by += 1;
            }
            proof {
                assert((bx + 1) * yb == bx * yb + yb) by (nonlinear_arith);
            }
            bx += 1;
        }
        let image = Image { blocks };
        proof {
            params.lemma_blocks_tile();
            assert(image@ =~= image_blocks(params, img));
        }
        image
    }

    /// The block at block index `idx`.
    pub fn block(&self, idx: usize) -> (b: &Block)
        requires
            idx < self@.len(),
        ensures
            b@ == self@[idx as int],
    {
        &self.blocks[idx]
    }

    /// Number of blocks in the frame.
    pub fn block_count(&self) -> (n: usize)
        ensures
            n == self@.len(),
    {
        self.blocks.len()
    }

    /// The pixel stream of the frame: its blocks' pixels in block-index order.
    pub fn pixels(&self) -> (out: Vec<bool>)
        ensures
            out@ == flat(self@),
    {
        let mut out: Vec<bool> = Vec::new();
        let mut k: usize = 0;
        while k < self.blocks.len()
            invariant
                k <= self.blocks.len(),
                out@ == flat_prefix(self@, k as int),
            decreases self.blocks.len() - k,
        {
            let pixels = self.blocks[k].pixels();
            let ghost before = out@;
            let mut i: usize = 0;
            while i < pixels.len()
                invariant
                    i <= pixels.len(),
                    out@ == before + pixels@.take(i as int),
                decreases pixels.len() - i,
            {
                out.push(pixels[i]);
                i += 1;
                assert(out@ =~= before + pixels@.take(i as int));
            }
            assert(pixels@.take(pixels.len() as int) =~= pixels@);
            k += 1;
        }
        out
    }

    /// Whether `other` holds the same blocks.
    pub fn same_as(&self, other: &Image) -> (same: bool)
        ensures
            same == (self@ == other@),
    {
        if self.blocks.len() != other.blocks.len() {
            assert(self@.len() != other@.len());
            return false;
        }
        let mut k: usize = 0;
        while k < self.blocks.len()
            invariant
                self.blocks.len() == other.blocks.len(),
                k <= self.blocks.len(),
                forall|j: int| 0 <= j < k ==> self@[j] == other@[j],
            decreases self.blocks.len() - k,
        {
            if !same_bits(self.blocks[k].pixels(), other.blocks[k].pixels()) {
                assert(self@[k as int] != other@[k as int]);
                return false;
            }
            k += 1;
        }
        assert(self@ =~= other@);
        true
    }
}

impl PartialEq for Image {
    /// Two frames are equal when all their blocks are.
    fn eq(&self, other: &Image) -> (same: bool) {
        self.same_as(other)
    }
}

impl Eq for Image {

}

impl vstd::std_specs::cmp::PartialEqSpecImpl for Image {
    open spec fn obeys_eq_spec() -> bool {
        true
    }

    open spec fn eq_spec(&self, other: &Image) -> bool {
        self@ == other@
    }
}

} // verus!
