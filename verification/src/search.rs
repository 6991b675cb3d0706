//! The search step of the hill climb: propose one random colored line,
//! score its loss delta against the target, and apply it to the
//! approximation only when the delta is negative.

use crate::canvas::{changes_in_bounds, lemma_apply_dims, Color, Image, Point};
use crate::loss::{distinct_points, lemma_apply_total_loss, spec_total_loss, MAX_PIXEL_LOSS};
use crate::raster::{in_box, lemma_box_in_canvas, rasterize_line};
use rand::Rng;
use vstd::prelude::*;

verus! {

#[verifier::external_type_specification]
#[verifier::external_body]
pub struct ExThreadRng(rand::rngs::ThreadRng);

/// Relies on rand's `Rng::gen_range` over the half-open range `0..n`: the
/// returned value lies in that range, hence strictly below `n`. The call
/// panics on an empty range, so `n` must be positive.
#[verifier::external_body]
fn rand_below(rng: &mut rand::rngs::ThreadRng, n: u32) -> (r: u32)
    requires
        n >= 1,
    ensures
        r < n,
{
    rng.gen_range(0..n)
}

/// One search step: draws two random endpoints inside the canvas and one
/// random color (channels drawn from `0..255`, the upper bound exclusive),
/// rasterizes the line between them, and applies it to `approx` exactly when
/// its loss delta against `target` is negative. Whatever the random draws
/// were, the aggregate loss of `approx` against `target` never increases,
/// and it strictly decreases whenever the step reports an improvement.
pub fn tick(rng: &mut rand::rngs::ThreadRng, target: &Image, approx: &mut Image) -> (improved:
    bool)
    requires
        target@.wf(),
        old(approx)@.wf(),
        target@.same_dims(old(approx)@),
        target@.width >= 1,
        target@.height >= 1,
    ensures
        final(approx)@.wf(),
        final(approx)@.same_dims(old(approx)@),
        spec_total_loss(target@, final(approx)@) <= spec_total_loss(target@, old(approx)@),
        !improved ==> final(approx)@ == old(approx)@,
        improved ==> spec_total_loss(target@, final(approx)@) < spec_total_loss(
            target@,
            old(approx)@,
        ),
{
    let beg = Point { x: rand_below(rng, target.width), y: rand_below(rng, target.height) };
    let end = Point { x: rand_below(rng, target.width), y: rand_below(rng, target.height) };
    let color = Color {
        r: rand_below(rng, 255) as u8,
        g: rand_below(rng, 255) as u8,
        b: rand_below(rng, 255) as u8,
    };

    let pts = rasterize_line(beg, end);
    let mut changes: Vec<(Point, Color)> = Vec::new();
    for i in 0..pts.len()
        invariant
            changes@.len() == i,
            forall|k: int| 0 <= k < i ==> #[trigger] changes@[k] == (pts@[k], color),
            forall|k: int| 0 <= k < pts@.len() ==> in_box(beg, end, #[trigger] pts@[k]),
            forall|a: int, b: int| 0 <= a < b < pts@.len() ==> pts@[a] != pts@[b],
    {
        changes.push((pts[i], color));
    }

    proof {
        assert forall|i: int| 0 <= i < changes@.len() implies target@.in_bounds(
            (#[trigger] changes@[i]).0,
        ) by {
            lemma_box_in_canvas(target@, beg, end, changes@[i].0);
        }
        assert(changes_in_bounds(target@, changes@));
        assert(changes_in_bounds(old(approx)@, changes@));
        assert(distinct_points(changes@));
        assert(changes@.len() * MAX_PIXEL_LOSS <= i64::MAX) by (nonlinear_arith)
            requires
                0 <= changes@.len() <= u32::MAX,
        ;
    }

    let loss_delta = Image::loss_delta(target, approx, &changes);

    if loss_delta >= 0 {
        return false;
    }

    proof {
        lemma_apply_total_loss(target@, approx@, changes@);
        lemma_apply_dims(approx@, changes@);
    }
    approx.apply(&changes);

    true
}

} // verus!
