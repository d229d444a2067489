//! Sparse block deltas: the index and the change mask of every changed block.

use crate::bits::pack_bits;
use crate::block::same_bits;
use crate::frame::{Frame, FrameCtxt};
use crate::frames::{change_mask, has_changed, sparse_block_payload, sparse_blocks};
use crate::image::{fits, Image};
use crate::packet::{Packet, TAG_SPARSE_BLOCK};
use crate::params::Params;
use vstd::prelude::*;

verus! {

/// A frame written as a list of the changed blocks.
pub struct PcFrame {
    body: Vec<u8>,
}

impl View for PcFrame {
    type V = Seq<u8>;

    /// The uncompressed payload.
    closed spec fn view(&self) -> Seq<u8> {
        self.body@
    }
}

impl PcFrame {
    /// Encodes the change from `prev` to `curr`.
    pub fn build(params: &Params, prev: &Image, curr: &Image) -> (frame: PcFrame)
        requires
            params.wf(),
            fits(prev@, params),
            fits(curr@, params),
        ensures
            frame@ == sparse_block_payload(prev@, curr@),
    {
        let n = curr.block_count();
        let mut body: Vec<u8> = Vec::new();
        let mut k: usize = 0;
        while k < n
            invariant
                n == curr@.len(),
                n == prev@.len(),
                k <= n,
                body@ == sparse_blocks(prev@, curr@, k as int),
            decreases n - k,
        {
            let before = prev.block(k);
            let after = curr.block(k);
            if !same_bits(before.pixels(), after.pixels()) {
                body.push((k % 256) as u8);
                let mut mask = pack_bits(&change_mask(before, after));
                body.append(&mut mask);
            }
            k += 1;
        }
        PcFrame { body }
    }

    /// The uncompressed payload.
    pub fn serialize(self) -> (out: Vec<u8>)
        ensures
            out@ == self@,
    {
        self.body
    }
}

impl Frame for PcFrame {
    open spec fn tag() -> u8 {
        TAG_SPARSE_BLOCK
    }

    open spec fn payload(prev: Option<Seq<Seq<bool>>>, curr: Seq<Seq<bool>>) -> Option<Seq<u8>> {
        if has_changed(prev, curr) {
            Some(sparse_block_payload(prev->0, curr))
        } else {
            None
        }
    }

    open spec fn body(&self) -> Seq<u8> {
        self@
    }

    fn build(ctxt: FrameCtxt<'_>) -> (frame: Option<PcFrame>) {
        match ctxt.prev {
            Some(prev) => {
                if ctxt.curr.same_as(prev) {
                    None
                } else {
                    let frame = PcFrame::build(ctxt.params, prev, ctxt.curr);
                    assert(frame.body() == frame@);
                    Some(frame)
                }
            },
            None => None,
        }
    }

    fn into_packet(self) -> (packet: Packet) {
        assert(self.body() == self@ && Self::tag() == TAG_SPARSE_BLOCK);
        Packet::new(TAG_SPARSE_BLOCK, self.serialize())
    }
}

} // verus!
