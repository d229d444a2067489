//! Duplicate markers: the frame repeats the previous one.

use crate::frame::{Frame, FrameCtxt};
use crate::packet::{Packet, TAG_DUPLICATE};
use vstd::prelude::*;

verus! {

/// A frame that is pixel for pixel the previous one.
pub struct DFrame;

impl DFrame {
    /// The uncompressed payload: nothing.
    pub fn serialize(&self) -> (out: Vec<u8>)
        ensures
            out@ == Seq::<u8>::empty(),
    {
        Vec::new()
    }
}

impl Frame for DFrame {
    open spec fn tag() -> u8 {
        TAG_DUPLICATE
    }

    open spec fn payload(prev: Option<Seq<Seq<bool>>>, curr: Seq<Seq<bool>>) -> Option<Seq<u8>> {
        if prev is Some && prev->0 == curr {
            Some(Seq::empty())
        } else {
            None
        }
    }

    open spec fn body(&self) -> Seq<u8> {
        Seq::empty()
    }

    fn build(ctxt: FrameCtxt<'_>) -> (frame: Option<DFrame>) {
        match ctxt.prev {
            Some(prev) => {
                if ctxt.curr.same_as(prev) {
                    let frame = DFrame;
                    assert(frame.body() == Seq::<u8>::empty());
                    Some(frame)
                } else {
                    None
                }
            },
            None => None,
        }
    }

    fn into_packet(self) -> (packet: Packet) {
        assert(self.body() == Seq::<u8>::empty() && Self::tag() == TAG_DUPLICATE);
        Packet::new(TAG_DUPLICATE, self.serialize())
    }
}

} // verus!
