//! Sparse pixel deltas: the position of every changed pixel.

use crate::frame::{Frame, FrameCtxt};
use crate::frames::{has_changed, shorter, sparse_pixel_payload, sparse_pixels};
use crate::image::Image;
use crate::packet::{Packet, TAG_SPARSE_PIXEL};
use vstd::prelude::*;

verus! {

/// A frame written as a list of the changed pixels.
pub struct PdFrame {
    body: Vec<u8>,
}

impl View for PdFrame {
    type V = Seq<u8>;

    /// The uncompressed payload.
    closed spec fn view(&self) -> Seq<u8> {
        self.body@
    }
}

impl PdFrame {
    /// Encodes the change from `prev` to `curr`. A position is written in
    /// one byte: above 255 only its lowest eight bits are kept.
    pub fn build(prev: &Image, curr: &Image) -> (frame: PdFrame)
        ensures
            frame@ == sparse_pixel_payload(prev@, curr@),
    {
        let before = prev.pixels();
        let after = curr.pixels();
        let n = if before.len() <= after.len() {
            before.len()
        } else {
            after.len()
        };
        let mut body: Vec<u8> = Vec::new();
        let mut i: usize = 0;
        while i < n
            invariant
                n == shorter(before@.len(), after@.len()),
                i <= n,
                body@ == sparse_pixels(before@, after@, i as int),
            decreases n - i,
        {
            if before[i] != after[i] {
                body.push((i % 256) as u8);
            }
            i += 1;
        }
        PdFrame { body }
    }

    /// The uncompressed payload.
    pub fn serialize(self) -> (out: Vec<u8>)
        ensures
            out@ == self@,
    {
        self.body
    }
}

impl Frame for PdFrame {
    open spec fn tag() -> u8 {
        TAG_SPARSE_PIXEL
    }

    open spec fn payload(prev: Option<Seq<Seq<bool>>>, curr: Seq<Seq<bool>>) -> Option<Seq<u8>> {
        if has_changed(prev, curr) {
            Some(sparse_pixel_payload(prev->0, curr))
        } else {
            None
        }
    }

    open spec fn body(&self) -> Seq<u8> {
        self@
    }

    fn build(ctxt: FrameCtxt<'_>) -> (frame: Option<PdFrame>) {
        match ctxt.prev {
            Some(prev) => {
                if ctxt.curr.same_as(prev) {
                    None
                } else {
                    let frame = PdFrame::build(prev, ctxt.curr);
                    assert(frame.body() == frame@);
                    Some(frame)
                }
            },
            None => None,
        }
    }

    fn into_packet(self) -> (packet: Packet) {
        assert(self.body() == self@ && Self::tag() == TAG_SPARSE_PIXEL);
        Packet::new(TAG_SPARSE_PIXEL, self.serialize())
    }
}

} // verus!
