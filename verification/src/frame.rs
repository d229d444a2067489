//! What the encoding strategies have in common.

use crate::image::{fits, Image};
use crate::packet::{framed, Packet};
use crate::params::Params;
use vstd::prelude::*;

verus! {

/// What a strategy sees of one frame transition: the geometry, the previous
/// frame if there is one, and the current frame.
#[derive(Clone, Copy)]
pub struct FrameCtxt<'a> {
    pub params: &'a Params,
    pub prev: Option<&'a Image>,
    pub curr: &'a Image,
}

impl<'a> FrameCtxt<'a> {
    /// The geometry is valid and both frames have its shape.
    pub open spec fn wf(&self) -> bool {
        &&& self.params.wf()
        &&& fits(self.curr@, self.params)
        &&& self.prev is Some ==> fits(self.prev->0@, self.params)
    }

    /// The blocks of the previous frame, if there is one.
    pub open spec fn prev_blocks(&self) -> Option<Seq<Seq<bool>>> {
        match self.prev {
            Some(image) => Some(image@),
            None => None,
        }
    }

    /// The blocks of the current frame.
    pub open spec fn curr_blocks(&self) -> Seq<Seq<bool>> {
        self.curr@
    }
}

/// The bytes of an optional packet.
pub open spec fn packet_bytes(packet: Option<Packet>) -> Option<Seq<u8>> {
    match packet {
        Some(p) => Some(p@),
        None => None,
    }
}

/// The packet bytes for an optional payload under `tag`.
pub open spec fn offer(tag: u8, payload: Option<Seq<u8>>) -> Option<Seq<u8>> {
    match payload {
        Some(body) => Some(framed(tag, body)),
        None => None,
    }
}

/// One way of encoding a frame.
pub trait Frame: Sized {
    /// The type tag under which this strategy's packets are written.
    spec fn tag() -> u8;

    /// The uncompressed payload that this strategy writes for a transition
    /// from `prev` to `curr`; `None` where the strategy does not apply.
    spec fn payload(prev: Option<Seq<Seq<bool>>>, curr: Seq<Seq<bool>>) -> Option<Seq<u8>>;

    /// The uncompressed payload that this frame holds.
    spec fn body(&self) -> Seq<u8>;

    /// Encodes the transition, where the strategy applies.
    fn build(ctxt: FrameCtxt<'_>) -> (frame: Option<Self>)
        requires
            ctxt.wf(),
        ensures
            frame is Some <==> Self::payload(ctxt.prev_blocks(), ctxt.curr_blocks()) is Some,
            frame is Some ==> frame->0.body() == Self::payload(
                ctxt.prev_blocks(),
                ctxt.curr_blocks(),
            )->0,
    ;

    /// Frames the encoded transition under the strategy's tag.
    fn into_packet(self) -> (packet: Packet)
        ensures
            packet@ == framed(Self::tag(), self.body()),
            packet.wf(),
    ;

    /// Encodes the transition and frames it, where the strategy applies.
    fn build_packet(ctxt: FrameCtxt<'_>) -> (packet: Option<Packet>)
        requires
            ctxt.wf(),
        ensures
            packet_bytes(packet) == offer(
                Self::tag(),
                Self::payload(ctxt.prev_blocks(), ctxt.curr_blocks()),
            ),
            packet is Some ==> packet->0.wf(),
    {
        match Self::build(ctxt) {
            Some(frame) => Some(frame.into_packet()),
            None => None,
        }
    }
}

/// The packet bytes that strategy `F` offers for a transition from `prev`
/// to `curr`: its tag and its compressed payload; `None` where the strategy
/// does not apply.
pub open spec fn candidate<F: Frame>(prev: Option<Seq<Seq<bool>>>, curr: Seq<Seq<bool>>) -> Option<
    Seq<u8>,
> {
    offer(F::tag(), F::payload(prev, curr))
}

} // verus!
