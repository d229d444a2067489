//! The streaming encoder: picks the cheapest packet for every frame and
//! appends it to the output as long as the byte budget allows.

use crate::bitmap::RgbImage;
use crate::bits::lemma_packed_len;
use crate::frame::{candidate, packet_bytes, Frame, FrameCtxt};
use crate::frames::{DFrame, IFrame, PbFrame, PcFrame, PdFrame};
use crate::frames::{
    block_mask_payload, has_changed, intra_payload, sparse_block_payload, sparse_pixel_payload,
};
use crate::image::{fits, flat, image_blocks, lemma_flat_injective, lemma_flat_prefix, Image};
use crate::packet::{
    framed, geometry_payload, InitPacket, Packet, TAG_BLOCK_MASK, TAG_DUPLICATE, TAG_INIT,
    TAG_INTRA, TAG_SPARSE_BLOCK, TAG_SPARSE_PIXEL,
};
use crate::params::Params;
use crate::render::{render, rendered};
use crate::rle::lemma_encode_head;
use crate::stats::{tally, Stats};
use vstd::pervasive::unreached;
use vstd::prelude::*;

verus! {

/// Why an encoder could not be made.
#[derive(Clone, Copy, Debug, PartialEq, Eq, Structural)]
pub enum EncoderError {
    /// The byte budget is too small for the geometry packet.
    InitPacketTooLarge,
}

/// What an encoder holds, as plain values.
pub struct EncoderView {
    /// The output written so far.
    pub buffer: Seq<u8>,
    /// The blocks of the last frame written, if any.
    pub prev: Option<Seq<Seq<bool>>>,
    /// Number of frames written.
    pub frames: nat,
    /// Number of packets written, by type tag.
    pub packets: Map<u8, nat>,
}

/// `best`, unless `cand` is there and strictly shorter.
pub open spec fn prefer(best: Seq<u8>, cand: Option<Seq<u8>>) -> Seq<u8> {
    match cand {
        Some(c) => if c.len() < best.len() {
            c
        } else {
            best
        },
        None => best,
    }
}

/// What the five strategies offer for a transition, in order of priority:
/// intra, duplicate, block mask, sparse block, sparse pixel.
pub open spec fn candidates(prev: Option<Seq<Seq<bool>>>, curr: Seq<Seq<bool>>) -> Seq<
    Option<Seq<u8>>,
> {
    seq![
        candidate::<IFrame>(prev, curr),
        candidate::<DFrame>(prev, curr),
        candidate::<PbFrame>(prev, curr),
        candidate::<PcFrame>(prev, curr),
        candidate::<PdFrame>(prev, curr),
    ]
}

/// The packet written for a transition from `prev` to `curr`: the shortest
/// one on offer, and among equally short ones the one of highest priority.
pub open spec fn chosen_packet(prev: Option<Seq<Seq<bool>>>, curr: Seq<Seq<bool>>) -> Seq<u8> {
    let offers = candidates(prev, curr);
    prefer(prefer(prefer(prefer(offers[0]->0, offers[1]), offers[2]), offers[3]), offers[4])
}

/// An encoder that has written nothing.
pub open spec fn blank() -> EncoderView {
    EncoderView { buffer: Seq::empty(), prev: None, frames: 0, packets: Map::empty() }
}

/// `view` after `packet` was appended to its output and counted.
pub open spec fn with_packet(view: EncoderView, packet: Seq<u8>) -> EncoderView {
    EncoderView {
        buffer: view.buffer + packet,
        packets: view.packets.insert(packet[0], tally(view.packets, packet[0]) + 1),
        ..view
    }
}

/// The geometry packet of `params`.
pub open spec fn init_packet(params: &Params) -> Seq<u8> {
    framed(TAG_INIT, geometry_payload(params))
}

/// A new encoder: only the geometry packet is written.
pub open spec fn initial(params: &Params) -> EncoderView {
    with_packet(blank(), init_packet(params))
}

/// Whether `packet` still fits the budget of `params` after `view.buffer`.
pub open spec fn has_room(params: &Params, view: EncoderView, packet: Seq<u8>) -> bool {
    view.buffer.len() + packet.len() <= params.limit()
}

/// Whether a frame with blocks `curr` is accepted after `view`.
pub open spec fn accepts(params: &Params, view: EncoderView, curr: Seq<Seq<bool>>) -> bool {
    has_room(params, view, chosen_packet(view.prev, curr))
}

/// `view` after a frame with blocks `curr` was offered: where its packet
/// fits, the packet is written and the frame becomes the previous one;
/// where it does not, nothing changes.
pub open spec fn step(params: &Params, view: EncoderView, curr: Seq<Seq<bool>>) -> EncoderView {
    if accepts(params, view, curr) {
        EncoderView {
            prev: Some(curr),
            frames: view.frames + 1,
            ..with_packet(view, chosen_packet(view.prev, curr))
        }
    } else {
        view
    }
}

/// Every packet holds at least its tag.
pub proof fn lemma_framed_len(tag: u8, payload: Seq<u8>)
    ensures
        framed(tag, payload).len() >= 1,
        framed(tag, payload)[0] == tag,
        payload.len() > 0 ==> framed(tag, payload).len() >= 2,
{
    lemma_encode_head(payload);
}

/// The chosen packet is one of the offers, no offer is shorter, and every
/// offer of higher priority is strictly longer.
pub proof fn lemma_chosen_is_best(prev: Option<Seq<Seq<bool>>>, curr: Seq<Seq<bool>>)
    ensures
        exists|i: int|
            0 <= i < 5 && #[trigger] candidates(prev, curr)[i] == Some(chosen_packet(prev, curr))
                && forall|j: int|
                0 <= j < 5 && (#[trigger] candidates(prev, curr)[j]) is Some ==> {
                    &&& chosen_packet(prev, curr).len() <= candidates(prev, curr)[j]->0.len()
                    &&& j < i ==> chosen_packet(prev, curr).len() < candidates(
                        prev,
                        curr,
                    )[j]->0.len()
                },
{
    let offers = candidates(prev, curr);
    let chosen = chosen_packet(prev, curr);
    let b1 = prefer(offers[0]->0, offers[1]);
    let b2 = prefer(b1, offers[2]);
    let b3 = prefer(b2, offers[3]);
    let i: int = if offers[4] is Some && offers[4]->0.len() < b3.len() {
        4
    } else if offers[3] is Some && offers[3]->0.len() < b2.len() {
        3
    } else if offers[2] is Some && offers[2]->0.len() < b1.len() {
        2
    } else if offers[1] is Some && offers[1]->0.len() < offers[0]->0.len() {
        1
    } else {
        0
    };
    assert(offers[i] == Some(chosen));
    assert forall|j: int| 0 <= j < 5 && (#[trigger] offers[j]) is Some implies {
        &&& chosen.len() <= offers[j]->0.len()
        &&& j < i ==> chosen.len() < offers[j]->0.len()
    } by {}
}

/// The first byte of the chosen packet is the tag of a frame strategy, and
/// the packet is never empty.
pub proof fn lemma_chosen_tag(prev: Option<Seq<Seq<bool>>>, curr: Seq<Seq<bool>>)
    ensures
        chosen_packet(prev, curr).len() >= 1,
        TAG_INTRA <= chosen_packet(prev, curr)[0] <= TAG_SPARSE_PIXEL,
        has_changed(prev, curr) ==> chosen_packet(prev, curr)[0] != TAG_DUPLICATE,
        prev is None ==> chosen_packet(prev, curr) == framed(TAG_INTRA, intra_payload(curr)),
{
    lemma_framed_len(TAG_INTRA, intra_payload(curr));
    lemma_framed_len(TAG_DUPLICATE, Seq::empty());
    if has_changed(prev, curr) {
        lemma_framed_len(TAG_BLOCK_MASK, block_mask_payload(prev->0, curr));
        lemma_framed_len(TAG_SPARSE_BLOCK, sparse_block_payload(prev->0, curr));
        lemma_framed_len(TAG_SPARSE_PIXEL, sparse_pixel_payload(prev->0, curr));
    }
}

/// The duplicate marker is chosen exactly when there is a previous frame and
/// the current frame equals it pixel for pixel, whether the two are compared
/// block by block or as pixel streams; it is then the one-byte packet that
/// holds the duplicate tag.
pub proof fn lemma_duplicate_iff_unchanged(
    params: &Params,
    prev: Option<Seq<Seq<bool>>>,
    curr: Seq<Seq<bool>>,
)
    requires
        params.wf(),
        fits(curr, params),
        prev is Some ==> fits(prev->0, params),
    ensures
        chosen_packet(prev, curr)[0] == TAG_DUPLICATE <==> (prev is Some && prev->0 == curr),
        chosen_packet(prev, curr)[0] == TAG_DUPLICATE <==> (prev is Some && flat(prev->0) == flat(
            curr,
        )),
        prev is Some && prev->0 == curr ==> chosen_packet(prev, curr) == seq![TAG_DUPLICATE],
{
    lemma_chosen_tag(prev, curr);
    params.lemma_blocks_tile();
    if prev is Some {
        lemma_flat_injective(prev->0, curr, params.block_len());
    }
    if prev is Some && prev->0 == curr {
        lemma_flat_prefix(curr, params.block_len(), curr.len() as int);
        assert(flat(curr).len() == params.pixel_count());
        lemma_packed_len(flat(curr));
        lemma_framed_len(TAG_INTRA, intra_payload(curr));
        lemma_encode_head(Seq::<u8>::empty());
        assert(framed(TAG_DUPLICATE, Seq::empty()) =~= seq![TAG_DUPLICATE]);
    }
}

/// Offering a frame never takes the output past the budget, and a frame
/// that is not accepted leaves the encoder as it was.
pub proof fn lemma_step_within_budget(params: &Params, view: EncoderView, curr: Seq<Seq<bool>>)
    requires
        view.buffer.len() <= params.limit(),
    ensures
        step(params, view, curr).buffer.len() <= params.limit(),
        !accepts(params, view, curr) ==> step(params, view, curr) == view,
        accepts(params, view, curr) ==> step(params, view, curr).buffer == view.buffer
            + chosen_packet(view.prev, curr),
{
}

/// Turns one frame after the other into packets, within a byte budget.
#[derive(Debug)]
pub struct Encoder<'a> {
    params: &'a Params,
    stats: Stats,
    buffer: Vec<u8>,
    prev: Option<Image>,
}

impl<'a> View for Encoder<'a> {
    type V = EncoderView;

    closed spec fn view(&self) -> EncoderView {
        EncoderView {
            buffer: self.buffer@,
            prev: match self.prev {
                Some(image) => Some(image@),
                None => None,
            },
            frames: self.stats.frames as nat,
            packets: self.stats.counts(),
        }
    }
}

/// `best`, unless `cand` is there and strictly shorter.
fn pick(best: Packet, cand: Option<Packet>) -> (packet: Packet)
    requires
        best.wf(),
        cand is Some ==> cand->0.wf(),
    ensures
        packet@ == prefer(best@, packet_bytes(cand)),
        packet.wf(),
{
    match cand {
        Some(other) => {
            if other.len() < best.len() {
                other
            } else {
                best
            }
        },
        None => best,
    }
}

/// Builds what every strategy offers for the transition and picks the
/// shortest packet, the one of highest priority among equally short ones.
pub fn select_packet(ctxt: FrameCtxt<'_>) -> (packet: Packet)
    requires
        ctxt.wf(),
    ensures
        packet@ == chosen_packet(ctxt.prev_blocks(), ctxt.curr_blocks()),
        packet.wf(),
{
    let intra = match IFrame::build_packet(ctxt) {
        Some(packet) => packet,
        None => unreached(),
    };
    let best = pick(intra, DFrame::build_packet(ctxt));
    let best = pick(best, PbFrame::build_packet(ctxt));
    let best = pick(best, PcFrame::build_packet(ctxt));
    pick(best, PdFrame::build_packet(ctxt))
}

impl<'a> Encoder<'a> {
    /// The geometry that the encoder was made for.
    pub closed spec fn geometry(&self) -> &Params {
        self.params
    }

    /// The byte count of the statistics is the length of the output.
    pub closed spec fn counted(&self) -> bool {
        self.stats.bytes == self.buffer@.len()
    }

    /// What holds of an encoder while it is being made: the geometry is
    /// valid, the output is within the budget, and no count exceeds the
    /// number of bytes written.
    pub open spec fn sound(&self) -> bool {
        &&& self.geometry().wf()
        &&& self.counted()
        &&& self@.buffer.len() <= self.geometry().limit()
        &&& self@.frames <= self@.buffer.len()
        &&& forall|tag: u8| tally(self@.packets, tag) <= self@.buffer.len()
        &&& self@.prev is Some ==> fits(self@.prev->0, self.geometry())
    }

    /// What holds of every encoder: it is sound, its output starts with the
    /// geometry packet, and fewer frames than bytes were written.
    pub open spec fn wf(&self) -> bool {
        &&& self.sound()
        &&& self@.frames < self@.buffer.len()
        &&& init_packet(self.geometry()).is_prefix_of(self@.buffer)
    }

    /// Makes an encoder for `params` and writes the geometry packet. Fails
    /// where the budget is too small for that packet.
    pub fn new(params: &'a Params) -> (res: Result<Encoder<'a>, EncoderError>)
        requires
            params.wf(),
        ensures
            res is Ok <==> init_packet(params).len() <= params.limit(),
            res is Ok ==> {
                &&& res->Ok_0.wf()
                &&& res->Ok_0.geometry() == params
                &&& res->Ok_0@ == initial(params)
            },
            res is Err ==> res->Err_0 == EncoderError::InitPacketTooLarge,
    {
        let mut this = Encoder {
            params,
            stats: Stats::default(),
            buffer: Vec::new(),
            prev: None,
        };
        assert(this@ =~= blank()) by {
            assert(this@.buffer =~= Seq::<u8>::empty());
        }
        let init = InitPacket::new(params).into_packet();
        match this.write(init) {
            Ok(_) => Ok(this),
            Err(_) => Err(EncoderError::InitPacketTooLarge),
        }
    }

    /// Offers the next frame. The frame is binarized, the cheapest packet
    /// for the step from the previous frame is chosen, and the packet is
    /// written if it fits the budget. Returns whether it was written; where
    /// it was not, the encoder is unchanged.
    pub fn add(&mut self, curr: &RgbImage) -> (accepted: bool)
        requires
            old(self).wf(),
            curr.wf(),
            curr.spec_width() == old(self).geometry().vw(),
            curr.spec_height() == old(self).geometry().vh(),
        ensures
            final(self).wf(),
            final(self).geometry() == old(self).geometry(),
            accepted == accepts(
                old(self).geometry(),
                old(self)@,
                image_blocks(old(self).geometry(), curr),
            ),
            final(self)@ == step(
                old(self).geometry(),
                old(self)@,
                image_blocks(old(self).geometry(), curr),
            ),
            final(self)@.buffer.len() <= old(self).geometry().limit(),
            !accepted ==> final(self)@ == old(self)@,
    {
        let image = Image::new(self.params, curr);
        let ctxt = FrameCtxt { params: self.params, prev: self.prev.as_ref(), curr: &image };
        let packet = select_packet(ctxt);
        proof {
            lemma_chosen_tag(self@.prev, image@);
        }
        match self.write(packet) {
            Ok(_) => {
                self.stats.frames = self.stats.frames + 1;
                self.prev = Some(image);
                assert(self@ =~= step(
                    old(self).geometry(),
                    old(self)@,
                    image_blocks(old(self).geometry(), curr),
                ));
                true
            },
            Err(_) => false,
        }
    }

    /// The output written so far.
    pub fn buffer(&self) -> (bytes: &Vec<u8>)
        ensures
            bytes@ == self@.buffer,
    {
        &self.buffer
    }

    /// The statistics so far.
    pub fn stats(&self) -> (stats: &Stats)
        requires
            self.wf(),
        ensures
            stats.bytes == self@.buffer.len(),
            stats.frames == self@.frames,
            stats.counts() == self@.packets,
    {
        &self.stats
    }

    /// Ends the run: hands out the statistics and the output rendered as
    /// source text.
    pub fn finish(self) -> (out: (Stats, String))
        requires
            self.wf(),
        ensures
            out.0.bytes == self@.buffer.len(),
            out.0.frames == self@.frames,
            out.0.counts() == self@.packets,
            out.1@ == rendered(self@.buffer),
    {
        let code = render(&self.buffer);
        (self.stats, code)
    }

    /// Appends `packet` to the output and counts it, if it fits the budget;
    /// changes nothing if it does not.
    fn write(&mut self, packet: Packet) -> (res: Result<(), ()>)
        requires
            old(self).sound(),
            packet.wf(),
        ensures
            final(self).geometry() == old(self).geometry(),
            res is Ok <==> has_room(old(self).geometry(), old(self)@, packet@),
            res is Ok ==> final(self)@ == with_packet(old(self)@, packet@),
            res is Ok ==> final(self).prev == old(self).prev,
            res is Err ==> *final(self) == *old(self),
            final(self).sound(),
            res is Ok ==> final(self)@.frames < final(self)@.buffer.len(),
    {
        let ty = packet.ty();
        let mut data = packet.serialize();
        let limit: usize = self.params.size_limit() as usize;
        if data.len() > limit - self.buffer.len() {
            Err(())
        } else {
            proof {
                assert(tally(self@.packets, ty) <= self@.buffer.len());
            }
            self.stats.record(ty, data.len());
            self.buffer.append(&mut data);
            proof {
                assert(self@ =~= with_packet(old(self)@, packet@));
                assert forall|tag: u8| tally(self@.packets, tag) <= self@.buffer.len() by {
                    assert(tally(old(self)@.packets, tag) <= old(self)@.buffer.len());
                }
            }
            Ok(())
        }
    }
}

} // verus!
