//! Block and video geometry together with the output size budget.

use vstd::arithmetic::div_mod::lemma_fundamental_div_mod_converse;
use vstd::prelude::*;

verus! {

/// Why a geometry was rejected.
#[derive(Clone, Copy, Debug, PartialEq, Eq, Structural)]
pub enum ParamsError {
    /// One of the four dimensions is zero.
    ZeroDimension,
    /// The video width is not a multiple of the block width.
    WidthNotDivisible,
    /// The video height is not a multiple of the block height.
    HeightNotDivisible,
}

/// A validated geometry: block and video dimensions plus the byte budget.
#[derive(Clone, Copy, Debug)]
pub struct Params {
    pub(crate) block_width: u8,
    pub(crate) block_height: u8,
    pub(crate) video_width: u8,
    pub(crate) video_height: u8,
    pub(crate) size_limit: u16,
}

/// The first reason, in checking order, for which four dimensions do not
/// form a geometry; `None` when they do.
pub open spec fn geometry_defect(
    block_width: u8,
    block_height: u8,
    video_width: u8,
    video_height: u8,
) -> Option<ParamsError> {
    if block_width == 0 || block_height == 0 || video_width == 0 || video_height == 0 {
        Some(ParamsError::ZeroDimension)
    } else if video_width % block_width != 0 {
        Some(ParamsError::WidthNotDivisible)
    } else if video_height % block_height != 0 {
        Some(ParamsError::HeightNotDivisible)
    } else {
        None
    }
}

impl Params {
    /// Width of one block in pixels.
    pub closed spec fn bw(&self) -> int {
        self.block_width as int
    }

    /// Height of one block in pixels.
    pub closed spec fn bh(&self) -> int {
        self.block_height as int
    }

    /// Width of the video in pixels.
    pub closed spec fn vw(&self) -> int {
        self.video_width as int
    }

    /// Height of the video in pixels.
    pub closed spec fn vh(&self) -> int {
        self.video_height as int
    }

    /// The byte budget of one encoding run.
    pub closed spec fn limit(&self) -> int {
        self.size_limit as int
    }

    /// All dimensions are positive bytes and blocks tile the video exactly.
    pub open spec fn wf(&self) -> bool {
        &&& 0 < self.bw() <= self.vw() <= 255
        &&& 0 < self.bh() <= self.vh() <= 255
        &&& self.vw() % self.bw() == 0
        &&& self.vh() % self.bh() == 0
        &&& 0 <= self.limit() <= 65535
    }

    /// Number of block columns.
    pub open spec fn spec_xblocks(&self) -> int {
        self.vw() / self.bw()
    }

    /// Number of block rows.
    pub open spec fn spec_yblocks(&self) -> int {
        self.vh() / self.bh()
    }

    /// Number of blocks in one image.
    pub open spec fn block_count(&self) -> int {
        self.spec_xblocks() * self.spec_yblocks()
    }

    /// Number of pixels in one block.
    pub open spec fn block_len(&self) -> int {
        self.bw() * self.bh()
    }

    /// Number of pixels in one image.
    pub open spec fn pixel_count(&self) -> int {
        self.vw() * self.vh()
    }

    /// Position of block `(bx, by)` in an image: columns of blocks first.
    pub open spec fn spec_block_idx(&self, bx: int, by: int) -> int {
        bx * self.spec_yblocks() + by
    }

    /// Builds a geometry, rejecting zero dimensions and blocks that do not
    /// tile the video.
    pub fn new(
        block_width: u8,
        block_height: u8,
        video_width: u8,
        video_height: u8,
        size_limit: u16,
    ) -> (res: Result<Params, ParamsError>)
        ensures
            match res {
                Ok(p) => {
                    &&& geometry_defect(block_width, block_height, video_width, video_height)
                        is None
                    &&& p.wf()
                    &&& p.bw() == block_width
                    &&& p.bh() == block_height
                    &&& p.vw() == video_width
                    &&& p.vh() == video_height
                    &&& p.limit() == size_limit
                },
                Err(e) => geometry_defect(block_width, block_height, video_width, video_height)
                    == Some(e),
            },
    {
        if block_width == 0 || block_height == 0 || video_width == 0 || video_height == 0 {
            return Err(ParamsError::ZeroDimension);
        }
        if video_width % block_width != 0 {
            return Err(ParamsError::WidthNotDivisible);
        }
        if video_height % block_height != 0 {
            return Err(ParamsError::HeightNotDivisible);
        }
        proof {
            assert(block_width <= video_width) by (nonlinear_arith)
                requires
                    block_width > 0,
                    video_width > 0,
                    video_width as int % block_width as int == 0,
            ;
            assert(block_height <= video_height) by (nonlinear_arith)
                requires
                    block_height > 0,
                    video_height > 0,
                    video_height as int % block_height as int == 0,
            ;
        }
        Ok(Params { block_width, block_height, video_width, video_height, size_limit })
    }

    /// The byte budget of one encoding run.
    pub fn size_limit(&self) -> (r: u16)
        ensures
            r == self.limit(),
    {
        self.size_limit
    }

    /// Width of one block in pixels.
    pub fn block_width(&self) -> (r: u8)
        ensures
            r == self.bw(),
    {
        self.block_width
    }

    /// Height of one block in pixels.
    pub fn block_height(&self) -> (r: u8)
        ensures
            r == self.bh(),
    {
        self.block_height
    }

    /// Width of the video in pixels.
    pub fn video_width(&self) -> (r: u8)
        ensures
            r == self.vw(),
    {
        self.video_width
    }

    /// Height of the video in pixels.
    pub fn video_height(&self) -> (r: u8)
        ensures
            r == self.vh(),
    {
        self.video_height
    }

    /// Number of block columns.
    pub fn xblocks(&self) -> (r: u8)
        requires
            self.wf(),
        ensures
            r == self.spec_xblocks(),
            r >= 1,
    {
        proof {
            lemma_tiling(self.vw(), self.bw());
        }
        self.video_width / self.block_width
    }

    /// Number of block rows.
    pub fn yblocks(&self) -> (r: u8)
        requires
            self.wf(),
        ensures
            r == self.spec_yblocks(),
            r >= 1,
    {
        proof {
            lemma_tiling(self.vh(), self.bh());
        }
        self.video_height / self.block_height
    }

    /// Leftmost pixel column of block column `bx`.
    pub fn block_x0(&self, bx: u8) -> (r: u8)
        requires
            self.wf(),
            bx < self.spec_xblocks(),
        ensures
            r == bx * self.bw(),
            r + self.bw() <= self.vw(),
    {
        proof {
            lemma_tiling(self.vw(), self.bw());
            lemma_cell_inside(bx as int, self.spec_xblocks(), self.bw());
        }
        bx * self.block_width
    }

    /// One past the rightmost pixel column of block column `bx`.
    pub fn block_x1(&self, bx: u8) -> (r: u8)
        requires
            self.wf(),
            bx < self.spec_xblocks(),
        ensures
            r == bx * self.bw() + self.bw(),
            r <= self.vw(),
    {
        self.block_x0(bx) + self.block_width
    }

    /// Topmost pixel row of block row `by`.
    pub fn block_y0(&self, by: u8) -> (r: u8)
        requires
            self.wf(),
            by < self.spec_yblocks(),
        ensures
            r == by * self.bh(),
            r + self.bh() <= self.vh(),
    {
        proof {
            lemma_tiling(self.vh(), self.bh());
            lemma_cell_inside(by as int, self.spec_yblocks(), self.bh());
        }
        by * self.block_height
    }

    /// One past the bottommost pixel row of block row `by`.
    pub fn block_y1(&self, by: u8) -> (r: u8)
        requires
            self.wf(),
            by < self.spec_yblocks(),
        ensures
            r == by * self.bh() + self.bh(),
            r <= self.vh(),
    {
        self.block_y0(by) + self.block_height
    }

    /// Position of block `(bx, by)` in an image.
    pub fn block_idx(&self, bx: u8, by: u8) -> (r: usize)
        requires
            self.wf(),
            bx < self.spec_xblocks(),
            by < self.spec_yblocks(),
        ensures
            r == self.spec_block_idx(bx as int, by as int),
            r < self.block_count(),
    {
        let yblocks = self.yblocks();
        proof {
            lemma_cell_inside(bx as int, self.spec_xblocks(), self.spec_yblocks());
            lemma_tiling(self.vw(), self.bw());
            lemma_product_bound(self.spec_xblocks(), self.spec_yblocks(), 255, 255);
        }
        (bx as usize) * (yblocks as usize) + (by as usize)
    }

    /// The blocks tile the video: block columns times block width is the
    /// video width, block rows times block height is the video height, and
    /// the blocks together hold every pixel once.
    pub proof fn lemma_blocks_tile(&self)
        requires
            self.wf(),
        ensures
            self.spec_xblocks() * self.bw() == self.vw(),
            self.spec_yblocks() * self.bh() == self.vh(),
            1 <= self.spec_xblocks() <= 255,
            1 <= self.spec_yblocks() <= 255,
            1 <= self.block_count() <= 65025,
            1 <= self.block_len() <= 65025,
            self.block_count() * self.block_len() == self.pixel_count(),
            1 <= self.pixel_count() <= 65025,
    {
        let xb = self.spec_xblocks();
        let yb = self.spec_yblocks();
        let bw = self.bw();
        let bh = self.bh();
        lemma_tiling(self.vw(), bw);
        lemma_tiling(self.vh(), bh);
        lemma_product_bound(xb, yb, 255, 255);
        lemma_product_bound(bw, bh, 255, 255);
        lemma_product_bound(self.vw(), self.vh(), 255, 255);
        assert((xb * yb) * (bw * bh) == (xb * bw) * (yb * bh)) by (nonlinear_arith);
    }

    /// Two geometries with the same dimensions and budget are the same.
    pub proof fn lemma_same_geometry(&self, other: &Params)
        requires
            self.wf(),
            other.wf(),
            self.bw() == other.bw(),
            self.bh() == other.bh(),
            self.vw() == other.vw(),
            self.vh() == other.vh(),
            self.limit() == other.limit(),
        ensures
            *self == *other,
    {
    }

    /// The block index is a one-to-one numbering of the block grid by
    /// `0 .. block_count`: every grid cell gets an index in that range, and
    /// every index in that range belongs to the cell it is split into.
    pub proof fn lemma_block_idx_dense(&self, bx: int, by: int, k: int)
        requires
            self.wf(),
        ensures
            0 <= bx < self.spec_xblocks() && 0 <= by < self.spec_yblocks() ==> {
                &&& 0 <= self.spec_block_idx(bx, by) < self.block_count()
                &&& self.spec_block_idx(bx, by) / self.spec_yblocks() == bx
                &&& self.spec_block_idx(bx, by) % self.spec_yblocks() == by
            },
            0 <= k < self.block_count() ==> {
                &&& 0 <= k / self.spec_yblocks() < self.spec_xblocks()
                &&& 0 <= k % self.spec_yblocks() < self.spec_yblocks()
                &&& self.spec_block_idx(k / self.spec_yblocks(), k % self.spec_yblocks()) == k
            },
    {
        let xb = self.spec_xblocks();
        let yb = self.spec_yblocks();
        self.lemma_blocks_tile();
        if 0 <= bx < xb && 0 <= by < yb {
            lemma_cell_inside(bx, xb, yb);
            lemma_split(bx, by, yb);
        }
        if 0 <= k < xb * yb {
            lemma_unsplit(k, xb, yb);
        }
    }
}

/// A positive `whole` that is a multiple of a positive `part` is `part`
/// times their quotient, and the quotient is at least 1.
pub proof fn lemma_tiling(whole: int, part: int)
    requires
        0 < part,
        0 < whole,
        whole % part == 0,
    ensures
        (whole / part) * part == whole,
        1 <= whole / part <= whole,
{
    assert((whole / part) * part == whole && 1 <= whole / part <= whole) by (nonlinear_arith)
        requires
            0 < part,
            0 < whole,
            whole % part == 0,
    ;
}

/// Cell `i` of `n` cells of `size` each ends inside the `n * size` total.
pub proof fn lemma_cell_inside(i: int, n: int, size: int)
    requires
        0 <= i < n,
        0 <= size,
    ensures
        0 <= i * size,
        i * size + size <= n * size,
{
    assert(0 <= i * size && i * size + size <= n * size) by (nonlinear_arith)
        requires
            0 <= i < n,
            0 <= size,
    ;
}

/// A product of two bounded non-negative numbers is bounded by the product
/// of the bounds.
pub proof fn lemma_product_bound(a: int, b: int, amax: int, bmax: int)
    requires
        0 <= a <= amax,
        0 <= b <= bmax,
    ensures
        0 <= a * b <= amax * bmax,
        a >= 1 && b >= 1 ==> a * b >= 1,
{
    assert(0 <= a * b <= amax * bmax && (a >= 1 && b >= 1 ==> a * b >= 1)) by (nonlinear_arith)
        requires
            0 <= a <= amax,
            0 <= b <= bmax,
    ;
}

/// `q * d + r` with `0 <= r < d` splits back into quotient `q` and remainder `r`.
pub proof fn lemma_split(q: int, r: int, d: int)
    requires
        0 <= r < d,
    ensures
        (q * d + r) / d == q,
        (q * d + r) % d == r,
{
    lemma_fundamental_div_mod_converse(q * d + r, d, q, r);
}

/// An index below `n * d` splits into a quotient below `n` and a remainder
/// below `d`, and is rebuilt from them.
pub proof fn lemma_unsplit(k: int, n: int, d: int)
    requires
        0 < d,
        0 <= k < n * d,
    ensures
        0 <= k / d < n,
        0 <= k % d < d,
        (k / d) * d + k % d == k,
{
    assert(0 <= k / d < n && 0 <= k % d < d && (k / d) * d + k % d == k) by (nonlinear_arith)
        requires
            0 < d,
            0 <= k < n * d,
    ;
}

} // verus!
