//! Size-bounded encoder that turns a sequence of colour frames into a compact
//! monochrome bitstream for a memory-constrained display.
//!
//! Every frame is binarized, cut into blocks, and written as the cheapest of
//! several competing packets; a search over block geometries finds the one
//! that fits the most frames into the byte budget.

pub mod bitmap;
pub mod bits;
pub mod block;
pub mod encoder;
pub mod frame;
pub mod frames;
pub mod image;
pub mod packet;
pub mod params;
pub mod render;
pub mod rle;
pub mod search;
pub mod source;
pub mod stats;

pub use crate::bitmap::RgbImage;
pub use crate::block::Block;
pub use crate::encoder::{Encoder, EncoderError};
pub use crate::frame::{Frame, FrameCtxt};
pub use crate::frames::{DFrame, IFrame, PbFrame, PcFrame, PdFrame};
pub use crate::image::Image;
pub use crate::packet::{InitPacket, Packet};
pub use crate::params::{Params, ParamsError};
pub use crate::source::Source;
pub use crate::stats::Stats;
