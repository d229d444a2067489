//! The frames of a video, in playing order.

use crate::bitmap::RgbImage;
use crate::params::Params;
use vstd::prelude::*;

verus! {

/// An ordered sequence of colour frames, read any number of times.
#[derive(Debug)]
pub struct Source {
    images: Vec<RgbImage>,
}

impl View for Source {
    type V = Seq<RgbImage>;

    closed spec fn view(&self) -> Seq<RgbImage> {
        self.images@
    }
}

/// Whether every frame is a complete bitmap of the video size of `params`.
pub open spec fn frames_match(frames: Seq<RgbImage>, params: &Params) -> bool {
    forall|i: int|
        0 <= i < frames.len() ==> {
            &&& (#[trigger] frames[i]).wf()
            &&& frames[i].spec_width() == params.vw()
            &&& frames[i].spec_height() == params.vh()
        }
}

impl Source {
    /// A source that yields `images` in their order.
    pub fn new(images: Vec<RgbImage>) -> (source: Source)
        ensures
            source@ == images@,
    {
        Source { images }
    }

    /// The frames, in playing order.
    pub fn images(&self) -> (images: &Vec<RgbImage>)
        ensures
            images@ == self@,
    {
        &self.images
    }

    /// Whether every frame is a complete bitmap of `width` by `height` pixels.
    pub fn has_size(&self, width: u8, height: u8) -> (ok: bool)
        ensures
            ok <==> forall|i: int|
                0 <= i < self@.len() ==> {
                    &&& (#[trigger] self@[i]).wf()
                    &&& self@[i].spec_width() == width
                    &&& self@[i].spec_height() == height
                },
    {
        let mut i: usize = 0;
        while i < self.images.len()
            invariant
                i <= self.images.len(),
                forall|k: int|
                    0 <= k < i ==> {
                        &&& (#[trigger] self@[k]).wf()
                        &&& self@[k].spec_width() == width
                        &&& self@[k].spec_height() == height
                    },
            decreases self.images.len() - i,
        {
            let image = &self.images[i];
            if !image.is_complete() || image.width() != width as u32 || image.height()
                != height as u32 {
                assert(!(self@[i as int].wf() && self@[i as int].spec_width() == width
                    && self@[i as int].spec_height() == height));
                return false;
            }
            i += 1;
        }
        true
    }
}

} // verus!
