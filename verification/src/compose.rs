//! The ensemble composer: merges several independently evolved approximation
//! canvases into one, picking for every pixel position the candidate color
//! closest to the target there, ties broken by candidate order.

use crate::canvas::{Color, Image, ImageView};
use crate::loss::spec_pixel_loss;
use vstd::prelude::*;

verus! {

/// Every candidate canvas is well-formed and shares the target's dimensions.
pub open spec fn candidates_wf(target: ImageView, cands: Seq<Image>) -> bool {
    forall|i: int|
        0 <= i < cands.len() ==> (#[trigger] cands[i])@.wf() && cands[i]@.same_dims(target)
}

/// Candidate `j` is the first minimizer of the pixel loss against the target
/// at position `k`, and `c` is its color there: no candidate does better,
/// and every earlier candidate does strictly worse.
pub open spec fn first_argmin_at(
    target: ImageView,
    cands: Seq<Image>,
    k: int,
    c: Color,
    j: int,
) -> bool {
    &&& 0 <= j < cands.len()
    &&& c == cands[j]@.pixels[k]
    &&& forall|i: int|
        0 <= i < cands.len() ==> spec_pixel_loss(target.pixels[k], c) <= spec_pixel_loss(
            target.pixels[k],
            (#[trigger] cands[i])@.pixels[k],
        )
    &&& forall|i: int|
        0 <= i < j ==> spec_pixel_loss(target.pixels[k], (#[trigger] cands[i])@.pixels[k])
            > spec_pixel_loss(target.pixels[k], c)
}

/// The color `c` is the composed color at position `k`: the color of the
/// first candidate minimizing the pixel loss against the target there. In
/// particular its loss is no larger than any candidate's loss at `k`.
pub open spec fn composed_at(target: ImageView, cands: Seq<Image>, k: int, c: Color) -> bool {
    exists|j: int| #[trigger] first_argmin_at(target, cands, k, c, j)
}

impl Image {
    /// Merges `candidates` into one canvas: for every pixel position, the
    /// color of whichever candidate is closest to the target there, ties
    /// broken by candidate order (the first minimal loss wins).
    pub fn compose(target: &Image, candidates: &Vec<Image>) -> (merged: Image)
        requires
            target@.wf(),
            candidates@.len() >= 1,
            candidates_wf(target@, candidates@),
        ensures
            merged@.wf(),
            merged@.same_dims(target@),
            forall|k: int|
                0 <= k < merged@.pixels.len() ==> composed_at(
                    target@,
                    candidates@,
                    k,
                    #[trigger] merged@.pixels[k],
                ),
    {
        let n = target.pixels.len();
        let mut pixels: Vec<Color> = Vec::new();
        for k in 0..n
            invariant
                target@.wf(),
                n == target@.pixels.len(),
                candidates@.len() >= 1,
                candidates_wf(target@, candidates@),
                pixels@.len() == k,
                forall|q: int|
                    0 <= q < k ==> composed_at(target@, candidates@, q, #[trigger] pixels@[q]),
        {
            proof {
                assert(candidates@[0]@.pixels.len() == n);
            }
            let mut best: Color = candidates[0].pixels[k];
            let mut best_loss: u32 = Image::pixel_loss(target.pixels[k], best);
            let mut bj: usize = 0;
            for j in 1..candidates.len()
                invariant
                    target@.wf(),
                    n == target@.pixels.len(),
                    k < n,
                    candidates@.len() >= 1,
                    candidates_wf(target@, candidates@),
                    0 <= bj < j <= candidates@.len(),
                    best == candidates@[bj as int]@.pixels[k as int],
                    best_loss == spec_pixel_loss(target@.pixels[k as int], best),
                    forall|i: int|
                        0 <= i < j ==> best_loss <= spec_pixel_loss(
                            target@.pixels[k as int],
                            (#[trigger] candidates@[i])@.pixels[k as int],
                        ),
                    forall|i: int|
                        0 <= i < bj ==> spec_pixel_loss(
                            target@.pixels[k as int],
                            (#[trigger] candidates@[i])@.pixels[k as int],
                        ) > best_loss,
            {
                proof {
                    assert(candidates@[j as int]@.pixels.len() == n);
                }
                let c = candidates[j].pixels[k];
                let l = Image::pixel_loss(target.pixels[k], c);
                if l < best_loss {
                    best = c;
                    best_loss = l;
                    bj = j;
                }
            }
            proof {
                assert(first_argmin_at(target@, candidates@, k as int, best, bj as int));
            }
            pixels.push(best);
        }
        Image { width: target.width, height: target.height, pixels }
    }
}

} // verus!
