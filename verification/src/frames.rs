//! The encoding strategies and what their payloads hold.

pub mod dframe;
pub mod iframe;
pub mod pbframe;
pub mod pcframe;
pub mod pdframe;

pub use crate::frames::dframe::DFrame;
pub use crate::frames::iframe::IFrame;
pub use crate::frames::pbframe::PbFrame;
pub use crate::frames::pcframe::PcFrame;
pub use crate::frames::pdframe::PdFrame;

use crate::bits::packed;
use crate::block::Block;
use crate::image::flat;
use vstd::prelude::*;

verus! {

/// The smaller of two lengths.
pub open spec fn shorter(a: nat, b: nat) -> nat {
    if a <= b {
        a
    } else {
        b
    }
}

/// Which pixels differ between two blocks, pixel by pixel, as far as both reach.
pub open spec fn diff_mask(a: Seq<bool>, b: Seq<bool>) -> Seq<bool> {
    Seq::new(shorter(a.len(), b.len()), |i: int| a[i] != b[i])
}

/// Which blocks of `curr` differ from the block of `prev` at the same index.
pub open spec fn changed_flags(prev: Seq<Seq<bool>>, curr: Seq<Seq<bool>>) -> Seq<bool> {
    Seq::new(curr.len(), |k: int| prev[k] != curr[k])
}

/// The byte that stands for position `i` in a payload: its lowest eight bits.
pub open spec fn index_byte(i: int) -> u8 {
    (i % 256) as u8
}

/// Payload of a frame written in full: its packed pixel stream.
pub open spec fn intra_payload(curr: Seq<Seq<bool>>) -> Seq<u8> {
    packed(flat(curr))
}

/// The packed change masks of the changed blocks among the first `n`, in
/// block-index order.
pub open spec fn block_masks(prev: Seq<Seq<bool>>, curr: Seq<Seq<bool>>, n: int) -> Seq<u8>
    decreases n,
{
    if n <= 0 {
        Seq::empty()
    } else if prev[n - 1] != curr[n - 1] {
        block_masks(prev, curr, n - 1) + packed(diff_mask(prev[n - 1], curr[n - 1]))
    } else {
        block_masks(prev, curr, n - 1)
    }
}

/// Payload of a block-mask delta: one packed flag per block, then the packed
/// change mask of every changed block.
pub open spec fn block_mask_payload(prev: Seq<Seq<bool>>, curr: Seq<Seq<bool>>) -> Seq<u8> {
    packed(changed_flags(prev, curr)) + block_masks(prev, curr, curr.len() as int)
}

/// For every changed block among the first `n`, in block-index order: the
/// byte of its index, then its packed change mask.
pub open spec fn sparse_blocks(prev: Seq<Seq<bool>>, curr: Seq<Seq<bool>>, n: int) -> Seq<u8>
    decreases n,
{
    if n <= 0 {
        Seq::empty()
    } else if prev[n - 1] != curr[n - 1] {
        sparse_blocks(prev, curr, n - 1) + seq![index_byte(n - 1)] + packed(
            diff_mask(prev[n - 1], curr[n - 1]),
        )
    } else {
        sparse_blocks(prev, curr, n - 1)
    }
}

/// Payload of a sparse block delta.
pub open spec fn sparse_block_payload(prev: Seq<Seq<bool>>, curr: Seq<Seq<bool>>) -> Seq<u8> {
    sparse_blocks(prev, curr, curr.len() as int)
}

/// For every position among the first `n` at which two pixel streams
/// differ, in order: the byte of the position.
pub open spec fn sparse_pixels(prev: Seq<bool>, curr: Seq<bool>, n: int) -> Seq<u8>
    decreases n,
{
    if n <= 0 {
        Seq::empty()
    } else if prev[n - 1] != curr[n - 1] {
        sparse_pixels(prev, curr, n - 1).push(index_byte(n - 1))
    } else {
        sparse_pixels(prev, curr, n - 1)
    }
}

/// Payload of a sparse pixel delta. A position above 255 is written as its
/// lowest eight bits, so the payload names every changed pixel only while the
/// frame has at most 256 pixels.
pub open spec fn sparse_pixel_payload(prev: Seq<Seq<bool>>, curr: Seq<Seq<bool>>) -> Seq<u8> {
    sparse_pixels(flat(prev), flat(curr), shorter(flat(prev).len(), flat(curr).len()) as int)
}

/// Whether a delta strategy applies: there is a previous frame and it differs.
pub open spec fn has_changed(prev: Option<Seq<Seq<bool>>>, curr: Seq<Seq<bool>>) -> bool {
    prev is Some && prev->0 != curr
}

/// Computes which pixels differ between two blocks.
pub fn change_mask(a: &Block, b: &Block) -> (mask: Vec<bool>)
    ensures
        mask@ == diff_mask(a@, b@),
{
    let pa = a.pixels();
    let pb = b.pixels();
    let n = if pa.len() <= pb.len() {
        pa.len()
    } else {
        pb.len()
    };
    let mut mask: Vec<bool> = Vec::new();
    let mut i: usize = 0;
    while i < n
        invariant
            n == shorter(pa@.len(), pb@.len()),
            i <= n,
            mask.len() == i,
            forall|j: int| 0 <= j < i ==> mask@[j] == (pa@[j] != pb@[j]),
        decreases n - i,
    {
        mask.push(pa[i] != pb[i]);
        i += 1;
    }
    assert(mask@ =~= diff_mask(a@, b@));
    mask
}

} // verus!
