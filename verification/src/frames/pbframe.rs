//! Block-mask deltas: a flag per block, then the change masks of the changed blocks.

use crate::bits::pack_bits;
use crate::block::same_bits;
use crate::frame::{Frame, FrameCtxt};
use crate::frames::{block_mask_payload, block_masks, change_mask, changed_flags, has_changed};
use crate::image::{fits, Image};
use crate::packet::{Packet, TAG_BLOCK_MASK};
use crate::params::Params;
use vstd::prelude::*;

verus! {

/// A frame written as the blocks that changed and, for each, the pixels that changed.
pub struct PbFrame {
    body: Vec<u8>,
}

impl View for PbFrame {
    type V = Seq<u8>;

    /// The uncompressed payload.
    closed spec fn view(&self) -> Seq<u8> {
        self.body@
    }
}

impl PbFrame {
    /// Encodes the change from `prev` to `curr`.
    pub fn build(params: &Params, prev: &Image, curr: &Image) -> (frame: PbFrame)
        requires
            params.wf(),
            fits(prev@, params),
            fits(curr@, params),
        ensures
            frame@ == block_mask_payload(prev@, curr@),
    {
        let n = curr.block_count();
        let mut flags: Vec<bool> = Vec::new();
        let mut masks: Vec<u8> = Vec::new();
        let mut k: usize = 0;
        while k < n
            invariant
                n == curr@.len(),
                n == prev@.len(),
                k <= n,
                flags.len() == k,
                forall|j: int| 0 <= j < k ==> flags@[j] == (prev@[j] != curr@[j]),
                masks@ == block_masks(prev@, curr@, k as int),
            decreases n - k,
        {
            let before = prev.block(k);
            let after = curr.block(k);
            if same_bits(before.pixels(), after.pixels()) {
                flags.push(false);
            } else {
                flags.push(true);
                let mut mask = pack_bits(&change_mask(before, after));
                masks.append(&mut mask);
            }
            k += 1;
        }
        assert(flags@ =~= changed_flags(prev@, curr@));
        let mut body = pack_bits(&flags);
        body.append(&mut masks);
        PbFrame { body }
    }

    /// The uncompressed payload.
    pub fn serialize(self) -> (out: Vec<u8>)
        ensures
            out@ == self@,
    {
        self.body
    }
}

impl Frame for PbFrame {
    open spec fn tag() -> u8 {
        TAG_BLOCK_MASK
    }

    open spec fn payload(prev: Option<Seq<Seq<bool>>>, curr: Seq<Seq<bool>>) -> Option<Seq<u8>> {
        if has_changed(prev, curr) {
            Some(block_mask_payload(prev->0, curr))
        } else {
            None
        }
    }

    open spec fn body(&self) -> Seq<u8> {
        self@
    }

    fn build(ctxt: FrameCtxt<'_>) -> (frame: Option<PbFrame>) {
        match ctxt.prev {
            Some(prev) => {
                if ctxt.curr.same_as(prev) {
                    None
                } else {
                    let frame = PbFrame::build(ctxt.params, prev, ctxt.curr);
                    assert(frame.body() == frame@);
                    Some(frame)
                }
            },
            None => None,
        }
    }

    fn into_packet(self) -> (packet: Packet) {
        assert(self.body() == self@ && Self::tag() == TAG_BLOCK_MASK);
        Packet::new(TAG_BLOCK_MASK, self.serialize())
    }
}

} // verus!
