//! Intra frames: the whole picture, with no reference to an earlier frame.

use crate::bits::pack_bits;
use crate::frame::{Frame, FrameCtxt};
use crate::frames::intra_payload;
use crate::packet::{Packet, TAG_INTRA};
use vstd::prelude::*;

verus! {

/// A frame written in full.
pub struct IFrame {
    body: Vec<u8>,
}

impl View for IFrame {
    type V = Seq<u8>;

    /// The uncompressed payload.
    closed spec fn view(&self) -> Seq<u8> {
        self.body@
    }
}

impl IFrame {
    /// The uncompressed payload.
    pub fn serialize(self) -> (out: Vec<u8>)
        ensures
            out@ == self@,
    {
        self.body
    }
}

impl Frame for IFrame {
    open spec fn tag() -> u8 {
        TAG_INTRA
    }

    open spec fn payload(prev: Option<Seq<Seq<bool>>>, curr: Seq<Seq<bool>>) -> Option<Seq<u8>> {
        Some(intra_payload(curr))
    }

    open spec fn body(&self) -> Seq<u8> {
        self@
    }

    fn build(ctxt: FrameCtxt<'_>) -> (frame: Option<IFrame>) {
        let pixels = ctxt.curr.pixels();
        let frame = IFrame { body: pack_bits(&pixels) };
        assert(frame.body() == frame@);
        Some(frame)
    }

    fn into_packet(self) -> (packet: Packet) {
        assert(self.body() == self@ && Self::tag() == TAG_INTRA);
        Packet::new(TAG_INTRA, self.serialize())
    }
}

} // verus!
