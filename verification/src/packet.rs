//! Packets: a one-byte type tag followed by a run-length compressed payload.

use crate::params::Params;
use crate::rle::{compress, rle_encode};
use vstd::prelude::*;

verus! {

/// Tag of the geometry packet that opens every stream.
pub const TAG_INIT: u8 = 0;

/// Tag of a frame written in full.
pub const TAG_INTRA: u8 = 1;

/// Tag of a frame that repeats the previous one.
pub const TAG_DUPLICATE: u8 = 2;

/// Tag of a frame written as block flags followed by the masks of the changed blocks.
pub const TAG_BLOCK_MASK: u8 = 3;

/// Tag of a frame written as the indices and masks of the changed blocks.
pub const TAG_SPARSE_BLOCK: u8 = 4;

/// Tag of a frame written as the indices of the changed pixels.
pub const TAG_SPARSE_PIXEL: u8 = 5;

/// The bytes of a packet with tag `tag` and uncompressed payload `payload`.
pub open spec fn framed(tag: u8, payload: Seq<u8>) -> Seq<u8> {
    seq![tag] + rle_encode(payload)
}

/// The payload of the geometry packet of `params`.
pub open spec fn geometry_payload(params: &Params) -> Seq<u8> {
    seq![params.bw() as u8, params.bh() as u8, params.vw() as u8, params.vh() as u8]
}

/// A packet ready to be written: its tag and its compressed payload.
#[derive(Clone, Debug)]
pub struct Packet {
    bytes: Vec<u8>,
}

/// The geometry packet before framing: the four dimension bytes.
#[derive(Debug)]
pub struct InitPacket {
    body: Vec<u8>,
}

impl View for Packet {
    type V = Seq<u8>;

    /// The bytes that the packet puts on the wire.
    closed spec fn view(&self) -> Seq<u8> {
        self.bytes@
    }
}

impl View for InitPacket {
    type V = Seq<u8>;

    /// The uncompressed payload.
    closed spec fn view(&self) -> Seq<u8> {
        self.body@
    }
}

impl Packet {
    /// Every packet holds at least its tag.
    pub open spec fn wf(&self) -> bool {
        self@.len() >= 1
    }

    /// The type tag.
    pub open spec fn tag(&self) -> u8 {
        self@[0]
    }

    /// Frames `payload`: compresses it and puts `ty` in front.
    pub fn new(ty: u8, payload: Vec<u8>) -> (packet: Packet)
        ensures
            packet@ == framed(ty, payload@),
            packet.wf(),
    {
        let mut bytes: Vec<u8> = Vec::new();
        bytes.push(ty);
        let mut body = compress(&payload);
        bytes.append(&mut body);
        assert(bytes@ =~= framed(ty, payload@));
        Packet { bytes }
    }

    /// The type tag.
    pub fn ty(&self) -> (t: u8)
        requires
            self.wf(),
        ensures
            t == self.tag(),
    {
        self.bytes[0]
    }

    /// Number of bytes that the packet puts on the wire.
    pub fn len(&self) -> (n: usize)
        ensures
            n == self@.len(),
    {
        self.bytes.len()
    }

    /// The bytes that the packet puts on the wire: the tag, then the
    /// compressed payload.
    pub fn serialize(self) -> (out: Vec<u8>)
        ensures
            out@ == self@,
    {
        self.bytes
    }
}

impl InitPacket {
    /// The geometry packet of `params`.
    pub fn new(params: &Params) -> (packet: InitPacket)
        ensures
            packet@ == geometry_payload(params),
    {
        let mut body: Vec<u8> = Vec::new();
        body.push(params.block_width());
        body.push(params.block_height());
        body.push(params.video_width());
        body.push(params.video_height());
        assert(body@ =~= geometry_payload(params));
        InitPacket { body }
    }

    /// Frames the geometry packet under its tag.
    pub fn into_packet(self) -> (packet: Packet)
        ensures
            packet@ == framed(TAG_INIT, self@),
            packet.wf(),
    {
        Packet::new(TAG_INIT, self.body)
    }
}

} // verus!
