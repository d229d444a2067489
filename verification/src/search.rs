//! The search for the block geometry that fits the most frames into the budget.

use crate::bitmap::RgbImage;
use crate::encoder::{accepts, init_packet, initial, step, Encoder, EncoderError, EncoderView};
use crate::image::image_blocks;
use crate::params::Params;
use crate::render::rendered;
use crate::source::{frames_match, Source};
use crate::stats::Stats;
use vstd::prelude::*;

verus! {

/// The encoder after the first `k` of `frames` were offered, and whether a
/// frame among them was rejected. Frames are offered in order and nothing
/// is offered after a rejection.
pub open spec fn run(params: &Params, frames: Seq<RgbImage>, k: int) -> (EncoderView, bool)
    decreases k,
{
    if k <= 0 {
        (initial(params), false)
    } else {
        let (view, stopped) = run(params, frames, k - 1);
        let blocks = image_blocks(params, &frames[k - 1]);
        if stopped || !accepts(params, view, blocks) {
            (view, true)
        } else {
            (step(params, view, blocks), false)
        }
    }
}

/// The encoder at the end of a run over `frames`.
pub open spec fn outcome(params: &Params, frames: Seq<RgbImage>) -> EncoderView {
    run(params, frames, frames.len() as int).0
}

/// Whether `(stats, code)` is what a run that ended in `view` reports.
pub open spec fn reports(stats: &Stats, code: &String, view: EncoderView) -> bool {
    &&& stats.bytes == view.buffer.len()
    &&& stats.frames == view.frames
    &&& stats.counts() == view.packets
    &&& code@ == rendered(view.buffer)
}

/// Whether a run with statistics `a` is strictly better than one with `b`:
/// it wrote more frames, or as many frames in fewer bytes.
pub open spec fn outranks(a: &Stats, b: &Stats) -> bool {
    a.frames > b.frames || (a.frames == b.frames && a.bytes < b.bytes)
}

/// Whether `w` is the winner among `results`: no result is strictly better,
/// and every later result is strictly worse.
pub open spec fn is_winner(results: Seq<(Params, Stats, String)>, w: int) -> bool {
    &&& 0 <= w < results.len()
    &&& forall|j: int| 0 <= j < results.len() ==> !outranks(&(#[trigger] results[j]).1, &results[w].1)
    &&& forall|j: int| w < j < results.len() ==> outranks(&results[w].1, &(#[trigger] results[j]).1)
}

/// Whether `sets` holds a geometry with blocks of `bw` by `bh` pixels.
pub open spec fn lists(sets: Seq<Params>, bw: int, bh: int) -> bool {
    exists|i: int| 0 <= i < sets.len() && (#[trigger] sets[i]).bw() == bw && sets[i].bh() == bh
}

/// Whether `bw` by `bh` is a block size that the search tries for a video
/// of `vw` by `vh` pixels: smaller than the video in both directions and
/// dividing it evenly.
pub open spec fn is_block_size(bw: int, bh: int, vw: int, vh: int) -> bool {
    &&& 1 <= bw < vw
    &&& 1 <= bh < vh
    &&& vw % bw == 0
    &&& vh % bh == 0
}

/// Whether block size `(aw, ah)` comes before `(bw, bh)` in the order in
/// which the search tries block sizes: by width, then by height.
pub open spec fn tried_before(aw: int, ah: int, bw: int, bh: int) -> bool {
    aw < bw || (aw == bw && ah < bh)
}

/// Once a frame was rejected, offering more frames changes nothing.
pub proof fn lemma_run_stopped(params: &Params, frames: Seq<RgbImage>, i: int, k: int)
    requires
        0 <= i <= k,
        run(params, frames, i).1,
    ensures
        run(params, frames, k) == run(params, frames, i),
    decreases k - i,
{
    if i < k {
        lemma_run_stopped(params, frames, i, k - 1);
    }
}

/// A run never takes the output past the budget, keeps the geometry packet
/// at the start of the output, and writes at most one frame per frame offered.
pub proof fn lemma_run_within_budget(params: &Params, frames: Seq<RgbImage>, k: int)
    requires
        init_packet(params).len() <= params.limit(),
        0 <= k,
    ensures
        run(params, frames, k).0.buffer.len() <= params.limit(),
        init_packet(params).is_prefix_of(run(params, frames, k).0.buffer),
        run(params, frames, k).0.frames <= k,
        !run(params, frames, k).1 ==> run(params, frames, k).0.frames == k,
    decreases k,
{
    if k > 0 {
        lemma_run_within_budget(params, frames, k - 1);
    } else {
        assert(initial(params).buffer =~= init_packet(params));
    }
}

/// Every geometry for a video of `video_width` by `video_height` pixels
/// whose blocks are smaller than the video and tile it, each with budget
/// `size_limit`, ordered by block width and then by block height.
pub fn prepare_params_sets(video_width: u8, video_height: u8, size_limit: u16) -> (sets: Vec<
    Params,
>)
    ensures
        forall|i: int|
            0 <= i < sets@.len() ==> {
                &&& (#[trigger] sets@[i]).wf()
                &&& sets@[i].vw() == video_width
                &&& sets@[i].vh() == video_height
                &&& sets@[i].limit() == size_limit
                &&& is_block_size(
                    sets@[i].bw(),
                    sets@[i].bh(),
                    video_width as int,
                    video_height as int,
                )
            },
        forall|bw: int, bh: int|
            is_block_size(bw, bh, video_width as int, video_height as int) ==> #[trigger] lists(
                sets@,
                bw,
                bh,
            ),
        forall|i: int, j: int|
            0 <= i < j < sets@.len() ==> tried_before(
                (#[trigger] sets@[i]).bw(),
                sets@[i].bh(),
                (#[trigger] sets@[j]).bw(),
                sets@[j].bh(),
            ),
{
    let ghost vw = video_width as int;
    let ghost vh = video_height as int;
    let mut sets: Vec<Params> = Vec::new();
    let mut block_width: u8 = 1;
    while block_width < video_width
        invariant
            vw == video_width,
            vh == video_height,
            1 <= block_width,
            forall|i: int|
                0 <= i < sets@.len() ==> {
                    &&& (#[trigger] sets@[i]).wf()
                    &&& sets@[i].vw() == vw
                    &&& sets@[i].vh() == vh
                    &&& sets@[i].limit() == size_limit
                    &&& is_block_size(sets@[i].bw(), sets@[i].bh(), vw, vh)
                    &&& sets@[i].bw() < block_width
                },
            forall|bw: int, bh: int|
                is_block_size(bw, bh, vw, vh) && bw < block_width ==> #[trigger] lists(
                    sets@,
                    bw,
                    bh,
                ),
            forall|i: int, j: int|
                0 <= i < j < sets@.len() ==> tried_before(
                    (#[trigger] sets@[i]).bw(),
                    sets@[i].bh(),
                    (#[trigger] sets@[j]).bw(),
                    sets@[j].bh(),
                ),
        decreases video_width - block_width,
    {
        let mut block_height: u8 = 1;
        while block_height < video_height
            invariant
                vw == video_width,
                vh == video_height,
                1 <= block_width < video_width,
                1 <= block_height,
                forall|i: int|
                    0 <= i < sets@.len() ==> {
                        &&& (#[trigger] sets@[i]).wf()
                        &&& sets@[i].vw() == vw
                        &&& sets@[i].vh() == vh
                        &&& sets@[i].limit() == size_limit
                        &&& is_block_size(sets@[i].bw(), sets@[i].bh(), vw, vh)
                        &&& tried_before(
                            sets@[i].bw(),
                            sets@[i].bh(),
                            block_width as int,
                            block_height as int,
                        )
                    },
                forall|bw: int, bh: int|
                    is_block_size(bw, bh, vw, vh) && tried_before(
                        bw,
                        bh,
                        block_width as int,
                        block_height as int,
                    ) ==> #[trigger] lists(sets@, bw, bh),
                forall|i: int, j: int|
                    0 <= i < j < sets@.len() ==> tried_before(
                        (#[trigger] sets@[i]).bw(),
                        sets@[i].bh(),
                        (#[trigger] sets@[j]).bw(),
                        sets@[j].bh(),
                    ),
            decreases video_height - block_height,
        {
            let ghost before = sets@;
            match Params::new(block_width, block_height, video_width, video_height, size_limit) {
                Ok(params) => {
                    sets.push(params);
                    proof {
                        assert(sets@[before.len() as int] == params);
                        assert(lists(sets@, block_width as int, block_height as int));
                    }
                },
                Err(_) => {},
            }
            proof {
                assert forall|bw: int, bh: int|
                    is_block_size(bw, bh, vw, vh) && tried_before(
                        bw,
                        bh,
                        block_width as int,
                        block_height + 1,
                    ) implies #[trigger] lists(sets@, bw, bh) by {
                    if tried_before(bw, bh, block_width as int, block_height as int) {
                        assert(lists(before, bw, bh));
                        let i = choose|i: int|
                            0 <= i < before.len() && (#[trigger] before[i]).bw() == bw
                                && before[i].bh() == bh;
                        assert(sets@[i] == before[i]);
                    }
                }
            }
            block_height += 1;
        }
        block_width += 1;
    }
    sets
}

/// Encodes the frames of `source` under geometry `params`, in order, up to
/// the first frame that no longer fits the budget. Fails where the budget
/// is too small for the geometry packet.
pub fn perform_encoding(source: &Source, params: Params) -> (res: Result<
    (Params, Stats, String),
    EncoderError,
>)
    requires
        params.wf(),
        frames_match(source@, &params),
    ensures
        res is Ok <==> init_packet(&params).len() <= params.limit(),
        res is Ok ==> {
            &&& res->Ok_0.0 == params
            &&& reports(&res->Ok_0.1, &res->Ok_0.2, outcome(&params, source@))
        },
        res is Err ==> res->Err_0 == EncoderError::InitPacketTooLarge,
{
    let images = source.images();
    let (stats, code) = {
        let mut encoder = match Encoder::new(&params) {
            Ok(encoder) => encoder,
            Err(e) => {
                return Err(e);
            },
        };
        let mut i: usize = 0;
        while i < images.len()
            invariant_except_break
                i <= images.len(),
                !run(&params, images@, i as int).1,
                encoder@ == run(&params, images@, i as int).0,
            invariant
                params.wf(),
                frames_match(images@, &params),
                encoder.wf(),
                encoder.geometry() == &params,
            ensures
                encoder@ == outcome(&params, images@),
            decreases images.len() - i,
        {
            if !encoder.add(&images[i]) {
                proof {
                    lemma_run_stopped(&params, images@, i + 1, images@.len() as int);
                }
                break ;
            }
            i += 1;
        }
        encoder.finish()
    };
    Ok((params, stats, code))
}

/// Encodes the frames of `source` under every geometry of `params_sets`.
/// Fails where the budget of one of them is too small for its geometry packet.
pub fn perform_encodings(source: &Source, params_sets: Vec<Params>) -> (res: Result<
    Vec<(Params, Stats, String)>,
    EncoderError,
>)
    requires
        forall|i: int|
            0 <= i < params_sets@.len() ==> (#[trigger] params_sets@[i]).wf() && frames_match(
                source@,
                &params_sets@[i],
            ),
    ensures
        res is Ok <==> forall|i: int|
            0 <= i < params_sets@.len() ==> init_packet(&#[trigger] params_sets@[i]).len()
                <= params_sets@[i].limit(),
        res is Ok ==> {
            &&& res->Ok_0@.len() == params_sets@.len()
            &&& forall|i: int|
                0 <= i < params_sets@.len() ==> {
                    &&& (#[trigger] res->Ok_0@[i]).0 == params_sets@[i]
                    &&& reports(
                        &res->Ok_0@[i].1,
                        &res->Ok_0@[i].2,
                        outcome(&params_sets@[i], source@),
                    )
                }
        },
        res is Err ==> res->Err_0 == EncoderError::InitPacketTooLarge,
{
    let mut results: Vec<(Params, Stats, String)> = Vec::new();
    let mut i: usize = 0;
    while i < params_sets.len()
        invariant
            i <= params_sets.len(),
            results@.len() == i,
            forall|k: int|
                0 <= k < params_sets@.len() ==> (#[trigger] params_sets@[k]).wf() && frames_match(
                    source@,
                    &params_sets@[k],
                ),
            forall|k: int|
                0 <= k < i ==> init_packet(&#[trigger] params_sets@[k]).len()
                    <= params_sets@[k].limit(),
            forall|k: int|
                0 <= k < i ==> {
                    &&& (#[trigger] results@[k]).0 == params_sets@[k]
                    &&& reports(&results@[k].1, &results@[k].2, outcome(&params_sets@[k], source@))
                },
        decreases params_sets.len() - i,
    {
        let params = params_sets[i];
        match perform_encoding(source, params) {
            Ok(result) => {
                results.push(result);
            },
            Err(e) => {
                assert(!(init_packet(&params_sets@[i as int]).len() <= params_sets@[i as int].limit()));
                return Err(e);
            },
        }
        i += 1;
    }
    Ok(results)
}

/// Whether statistics `a` are strictly better than `b`.
pub fn is_better(a: &Stats, b: &Stats) -> (better: bool)
    ensures
        better == outranks(a, b),
{
    a.frames > b.frames || (a.frames == b.frames && a.bytes < b.bytes)
}

/// Picks the result that wrote the most frames, among those the one that
/// wrote the fewest bytes, and among those the last one. `None` where there
/// is no result.
pub fn pick_best(results: Vec<(Params, Stats, String)>) -> (best: Option<(Params, Stats, String)>)
    ensures
        best is None <==> results@.len() == 0,
        best is Some ==> exists|w: int| #[trigger]
            is_winner(results@, w) && best->0 == results@[w],
{
    if results.len() == 0 {
        return None;
    }
    let mut winner: usize = 0;
    let mut i: usize = 1;
    while i < results.len()
        invariant
            1 <= i <= results.len(),
            winner < i,
            forall|j: int| 0 <= j < i ==> !outranks(&(#[trigger] results@[j]).1, &results@[winner as int].1),
            forall|j: int|
                winner < j < i ==> outranks(&results@[winner as int].1, &(#[trigger] results@[j]).1),
        decreases results.len() - i,
    {
        if !is_better(&results[winner].1, &results[i].1) {
            winner = i;
        }
        i += 1;
    }
    let mut results = results;
    let ghost all = results@;
    assert(is_winner(all, winner as int));
    let best = results.swap_remove(winner);
    Some(best)
}

/// Tries every block geometry for a video of `video_width` by
/// `video_height` pixels and budget `size_limit` on the frames of `source`,
/// and returns the best result: `None` where the video is too small to be
/// cut into smaller blocks. Fails where the budget is too small for the
/// geometry packet of one of the geometries.
pub fn search(source: &Source, video_width: u8, video_height: u8, size_limit: u16) -> (res: Result<
    Option<(Params, Stats, String)>,
    EncoderError,
>)
    requires
        forall|i: int|
            0 <= i < source@.len() ==> {
                &&& (#[trigger] source@[i]).wf()
                &&& source@[i].spec_width() == video_width
                &&& source@[i].spec_height() == video_height
            },
    ensures
        res is Ok <==> forall|other: Params|
            other.wf() && is_block_size(
                other.bw(),
                other.bh(),
                video_width as int,
                video_height as int,
            ) && other.vw() == video_width && other.vh() == video_height && other.limit()
                == size_limit ==> (#[trigger] init_packet(&other)).len() <= size_limit,
        res is Ok ==> (res->Ok_0 is Some <==> video_width > 1 && video_height > 1),
        res is Ok && res->Ok_0 is Some ==> {
            let best = res->Ok_0->0;
            &&& best.0.wf()
            &&& best.0.vw() == video_width
            &&& best.0.vh() == video_height
            &&& best.0.limit() == size_limit
            &&& is_block_size(best.0.bw(), best.0.bh(), video_width as int, video_height as int)
            &&& reports(&best.1, &best.2, outcome(&best.0, source@))
            &&& forall|other: Params|
                other.wf() && is_block_size(
                    other.bw(),
                    other.bh(),
                    video_width as int,
                    video_height as int,
                ) && other.vw() == video_width && other.vh() == video_height && other.limit()
                    == size_limit ==> {
                    let theirs = #[trigger] outcome(&other, source@);
                    let ours = outcome(&best.0, source@);
                    &&& theirs.frames < ours.frames || (theirs.frames == ours.frames
                        && theirs.buffer.len() >= ours.buffer.len())
                    &&& tried_before(best.0.bw(), best.0.bh(), other.bw(), other.bh())
                        ==> theirs.frames < ours.frames || theirs.buffer.len()
                        > ours.buffer.len()
                }
        },
        res is Err ==> res->Err_0 == EncoderError::InitPacketTooLarge,
{
    let sets = prepare_params_sets(video_width, video_height, size_limit);
    let ghost listed = sets@;
    proof {
        if video_width > 1 && video_height > 1 {
            assert(is_block_size(1, 1, video_width as int, video_height as int));
            assert(lists(listed, 1, 1));
        }
    }
    let results = match perform_encodings(source, sets) {
        Ok(results) => {
            proof {
                assert forall|other: Params|
                    other.wf() && is_block_size(
                        other.bw(),
                        other.bh(),
                        video_width as int,
                        video_height as int,
                    ) && other.vw() == video_width && other.vh() == video_height && other.limit()
                        == size_limit implies (#[trigger] init_packet(&other)).len()
                    <= size_limit by {
                    assert(lists(listed, other.bw(), other.bh()));
                    let i = choose|i: int|
                        0 <= i < listed.len() && (#[trigger] listed[i]).bw() == other.bw()
                            && listed[i].bh() == other.bh();
                    listed[i].lemma_same_geometry(&other);
                }
            }
            results
        },
        Err(e) => {
            proof {
                let i = choose|i: int|
                    0 <= i < listed.len() && !(init_packet(&#[trigger] listed[i]).len()
                        <= listed[i].limit());
                assert(!(init_packet(&listed[i]).len() <= size_limit));
            }
            return Err(e);
        },
    };
    let ghost all = results@;
    let best = pick_best(results);
    proof {
        if best is Some {
            let won = best->0;
            let w = choose|w: int| #[trigger] is_winner(all, w) && won == all[w];
            assert(all[w].0 == listed[w]);
            assert forall|other: Params|
                other.wf() && is_block_size(
                    other.bw(),
                    other.bh(),
                    video_width as int,
                    video_height as int,
                ) && other.vw() == video_width && other.vh() == video_height && other.limit()
                    == size_limit implies {
                let theirs = #[trigger] outcome(&other, source@);
                let ours = outcome(&won.0, source@);
                &&& theirs.frames < ours.frames || (theirs.frames == ours.frames
                    && theirs.buffer.len() >= ours.buffer.len())
                &&& tried_before(won.0.bw(), won.0.bh(), other.bw(), other.bh())
                    ==> theirs.frames < ours.frames || theirs.buffer.len() > ours.buffer.len()
            } by {
                assert(lists(listed, other.bw(), other.bh()));
                let i = choose|i: int|
                    0 <= i < listed.len() && (#[trigger] listed[i]).bw() == other.bw()
                        && listed[i].bh() == other.bh();
                listed[i].lemma_same_geometry(&other);
                assert(all[i].0 == listed[i]);
                assert(!outranks(&all[i].1, &all[w].1));
                if tried_before(won.0.bw(), won.0.bh(), other.bw(), other.bh()) {
                    if i < w {
                        assert(tried_before(
                            listed[i].bw(),
                            listed[i].bh(),
                            listed[w].bw(),
                            listed[w].bh(),
                        ));
                    }
                    assert(w < i);
                    assert(outranks(&all[w].1, &all[i].1));
                }
            }
        }
    }
    Ok(best)
}

} // verus!
