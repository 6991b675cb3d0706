//! The loss model: per-pixel squared-channel-difference distance, the
//! incremental loss delta of a proposed change set, and the aggregate loss of
//! a whole canvas. All losses are integer-valued (sums of squares of byte
//! differences), so they are computed exactly in integer arithmetic.

use crate::canvas::{changes_in_bounds, spec_apply, Color, Image, ImageView, Point};
use crate::canvas::{lemma_apply_dims, lemma_apply_frame, lemma_offset_in_range};
use crate::canvas::lemma_offset_injective;
use vstd::prelude::*;

verus! {

/// The squared difference of one pair of channel values.
pub open spec fn spec_chan_loss(a: u8, b: u8) -> int {
    (a - b) * (a - b)
}

/// How far apart two colors are: the sum over the three channels of the
/// squared channel difference (squared Euclidean distance in raw RGB space).
pub open spec fn spec_pixel_loss(a: Color, b: Color) -> int {
    spec_chan_loss(a.r, b.r) + spec_chan_loss(a.g, b.g) + spec_chan_loss(a.b, b.b)
}

/// The largest value `spec_pixel_loss` can take: `3 * 255 * 255`.
pub const MAX_PIXEL_LOSS: u32 = 195075;

/// The aggregate loss of the first `n` pixels of `approx` against `target`.
pub open spec fn spec_total_loss_upto(target: ImageView, approx: ImageView, n: int) -> int
    decreases n,
{
    if n <= 0 {
        0
    } else {
        spec_total_loss_upto(target, approx, n - 1) + spec_pixel_loss(
            target.pixels[n - 1],
            approx.pixels[n - 1],
        )
    }
}

/// The aggregate loss of a whole canvas against the target: the sum of
/// `spec_pixel_loss` over every pixel position.
pub open spec fn spec_total_loss(target: ImageView, approx: ImageView) -> int {
    spec_total_loss_upto(target, approx, target.width * target.height)
}

/// The incremental loss delta of a change set: for each entry, the loss of
/// the proposed color against the target minus the loss of the current
/// approximation color against the target, summed over all entries.
/// Negative means the change set improves the approximation.
pub open spec fn spec_loss_delta(
    target: ImageView,
    approx: ImageView,
    changes: Seq<(Point, Color)>,
) -> int
    decreases changes.len(),
{
    if changes.len() == 0 {
        0
    } else {
        let p = changes.last().0;
        let c = changes.last().1;
        spec_loss_delta(target, approx, changes.drop_last()) + spec_pixel_loss(
            target.color_at(p),
            c,
        ) - spec_pixel_loss(target.color_at(p), approx.color_at(p))
    }
}

/// Pixel loss is bounded: at least zero, at most `MAX_PIXEL_LOSS`.
pub proof fn lemma_pixel_loss_bounds(a: Color, b: Color)
    ensures
        0 <= spec_pixel_loss(a, b) <= MAX_PIXEL_LOSS,
{
    assert(0 <= spec_chan_loss(a.r, b.r) <= 65025) by (nonlinear_arith)
        requires
            0 <= a.r <= 255,
            0 <= b.r <= 255,
    ;
    assert(0 <= spec_chan_loss(a.g, b.g) <= 65025) by (nonlinear_arith)
        requires
            0 <= a.g <= 255,
            0 <= b.g <= 255,
    ;
    assert(0 <= spec_chan_loss(a.b, b.b) <= 65025) by (nonlinear_arith)
        requires
            0 <= a.b <= 255,
            0 <= b.b <= 255,
    ;
}

/// Pixel loss is symmetric: the distance from `a` to `b` equals the distance
/// from `b` to `a`.
pub proof fn lemma_pixel_loss_symmetric(a: Color, b: Color)
    ensures
        spec_pixel_loss(a, b) == spec_pixel_loss(b, a),
{
    assert(spec_chan_loss(a.r, b.r) == spec_chan_loss(b.r, a.r)) by (nonlinear_arith);
    assert(spec_chan_loss(a.g, b.g) == spec_chan_loss(b.g, a.g)) by (nonlinear_arith);
    assert(spec_chan_loss(a.b, b.b) == spec_chan_loss(b.b, a.b)) by (nonlinear_arith);
}

/// A color is at distance zero from itself.
pub proof fn lemma_pixel_loss_self(a: Color)
    ensures
        spec_pixel_loss(a, a) == 0,
{
}

/// The loss delta of a change set is bounded by `MAX_PIXEL_LOSS` per entry in
/// either direction.
pub proof fn lemma_loss_delta_bounds(
    target: ImageView,
    approx: ImageView,
    changes: Seq<(Point, Color)>,
)
    ensures
        -(changes.len() * MAX_PIXEL_LOSS) <= spec_loss_delta(target, approx, changes) <= changes.len()
            * MAX_PIXEL_LOSS,
    decreases changes.len(),
{
    if changes.len() > 0 {
        let p = changes.last().0;
        let c = changes.last().1;
        lemma_loss_delta_bounds(target, approx, changes.drop_last());
        lemma_pixel_loss_bounds(target.color_at(p), c);
        lemma_pixel_loss_bounds(target.color_at(p), approx.color_at(p));
        assert((changes.len() - 1) * MAX_PIXEL_LOSS + MAX_PIXEL_LOSS == changes.len()
            * MAX_PIXEL_LOSS) by (nonlinear_arith);
    }
}

/// No two entries of the change set write different colors to the same point.
pub open spec fn consistent_changes(changes: Seq<(Point, Color)>) -> bool {
    forall|i: int, j: int|
        0 <= i < changes.len() && 0 <= j < changes.len() && (#[trigger] changes[i]).0 == (
        #[trigger] changes[j]).0 ==> changes[i].1 == changes[j].1
}

/// No point appears twice in the change set.
pub open spec fn distinct_points(changes: Seq<(Point, Color)>) -> bool {
    forall|i: int, j: int|
        0 <= i < j < changes.len() ==> (#[trigger] changes[i]).0 != (#[trigger] changes[j]).0
}

/// After a consistent change set is applied, every changed point holds the
/// color its entry assigned.
pub proof fn lemma_apply_reads_write(v: ImageView, changes: Seq<(Point, Color)>, i: int)
    requires
        v.wf(),
        changes_in_bounds(v, changes),
        consistent_changes(changes),
        0 <= i < changes.len(),
    ensures
        spec_apply(v, changes).color_at(changes[i].0) == changes[i].1,
    decreases changes.len(),
{
    let prefix = changes.drop_last();
    let p = changes.last().0;
    let c = changes.last().1;
    let applied = spec_apply(v, prefix);
    assert(changes_in_bounds(v, prefix)) by {
        assert(forall|k: int| 0 <= k < prefix.len() ==> prefix[k] == changes[k]);
    }
    lemma_apply_dims(v, prefix);
    lemma_offset_in_range(applied, p);
    assert(changes.last() == changes[changes.len() - 1]);
    if changes[i].0 == p {
        assert(changes[i].1 == c);
        assert(spec_apply(v, changes).color_at(p) == c);
    } else {
        assert(i < changes.len() - 1);
        assert(prefix[i] == changes[i]);
        assert(consistent_changes(prefix)) by {
            assert(forall|k: int| 0 <= k < prefix.len() ==> prefix[k] == changes[k]);
        }
        lemma_apply_reads_write(v, prefix, i);
        lemma_offset_in_range(applied, changes[i].0);
        lemma_offset_injective(applied, p, changes[i].0);
    }
}

/// The recomputed delta of a change set: for each entry, the loss of the
/// `after` canvas at the changed point minus the loss of the `before`
/// canvas there, both against the target.
pub open spec fn spec_recheck_delta(
    target: ImageView,
    before: ImageView,
    after: ImageView,
    changes: Seq<(Point, Color)>,
) -> int
    decreases changes.len(),
{
    if changes.len() == 0 {
        0
    } else {
        let p = changes.last().0;
        spec_recheck_delta(target, before, after, changes.drop_last()) + spec_pixel_loss(
            target.color_at(p),
            after.color_at(p),
        ) - spec_pixel_loss(target.color_at(p), before.color_at(p))
    }
}

proof fn lemma_recheck_pointwise(
    target: ImageView,
    before: ImageView,
    after: ImageView,
    changes: Seq<(Point, Color)>,
)
    requires
        forall|i: int|
            0 <= i < changes.len() ==> after.color_at((#[trigger] changes[i]).0) == changes[i].1,
    ensures
        spec_recheck_delta(target, before, after, changes) == spec_loss_delta(
            target,
            before,
            changes,
        ),
    decreases changes.len(),
{
    if changes.len() > 0 {
        let prefix = changes.drop_last();
        assert(forall|i: int| 0 <= i < prefix.len() ==> prefix[i] == changes[i]);
        lemma_recheck_pointwise(target, before, after, prefix);
        assert(changes.last() == changes[changes.len() - 1]);
    }
}

/// The loss delta is an exact incremental predictor: applying a consistent
/// change set and then recomputing the per-pixel loss at each changed point
/// against the target reproduces the delta exactly.
pub proof fn lemma_loss_delta_exact(
    target: ImageView,
    approx: ImageView,
    changes: Seq<(Point, Color)>,
)
    requires
        target.wf(),
        approx.wf(),
        target.same_dims(approx),
        changes_in_bounds(approx, changes),
        consistent_changes(changes),
    ensures
        spec_recheck_delta(target, approx, spec_apply(approx, changes), changes) == spec_loss_delta(
            target,
            approx,
            changes,
        ),
{
    let after = spec_apply(approx, changes);
    assert forall|i: int| 0 <= i < changes.len() implies after.color_at(
        (#[trigger] changes[i]).0,
    ) == changes[i].1 by {
        lemma_apply_reads_write(approx, changes, i);
    }
    lemma_recheck_pointwise(target, approx, after, changes);
}

proof fn lemma_total_upto_set(target: ImageView, a: ImageView, p: Point, c: Color, n: int)
    requires
        target.wf(),
        a.wf(),
        target.same_dims(a),
        a.in_bounds(p),
        n <= a.pixels.len(),
    ensures
        n <= a.offset_of(p) ==> spec_total_loss_upto(target, a.set_color(p, c), n)
            == spec_total_loss_upto(target, a, n),
        n > a.offset_of(p) ==> spec_total_loss_upto(target, a.set_color(p, c), n)
            == spec_total_loss_upto(target, a, n) - spec_pixel_loss(
            target.pixels[a.offset_of(p)],
            a.pixels[a.offset_of(p)],
        ) + spec_pixel_loss(target.pixels[a.offset_of(p)], c),
    decreases n,
{
    lemma_offset_in_range(a, p);
    if n > 0 {
        lemma_total_upto_set(target, a, p, c, n - 1);
    }
}

/// Overwriting one pixel changes the aggregate loss by exactly that pixel's
/// loss difference.
pub proof fn lemma_total_loss_set(target: ImageView, a: ImageView, p: Point, c: Color)
    requires
        target.wf(),
        a.wf(),
        target.same_dims(a),
        a.in_bounds(p),
    ensures
        spec_total_loss(target, a.set_color(p, c)) == spec_total_loss(target, a) - spec_pixel_loss(
            target.color_at(p),
            a.color_at(p),
        ) + spec_pixel_loss(target.color_at(p), c),
{
    lemma_offset_in_range(a, p);
    lemma_total_upto_set(target, a, p, c, target.width * target.height);
}

/// Applying a change set with pairwise-distinct points moves the aggregate
/// loss by exactly the change set's loss delta.
pub proof fn lemma_apply_total_loss(
    target: ImageView,
    approx: ImageView,
    changes: Seq<(Point, Color)>,
)
    requires
        target.wf(),
        approx.wf(),
        target.same_dims(approx),
        changes_in_bounds(approx, changes),
        distinct_points(changes),
    ensures
        spec_total_loss(target, spec_apply(approx, changes)) == spec_total_loss(target, approx)
            + spec_loss_delta(target, approx, changes),
    decreases changes.len(),
{
    if changes.len() > 0 {
        let prefix = changes.drop_last();
        let p = changes.last().0;
        let c = changes.last().1;
        assert(changes.last() == changes[changes.len() - 1]);
        assert(forall|k: int| 0 <= k < prefix.len() ==> prefix[k] == changes[k]);
        assert(changes_in_bounds(approx, prefix));
        assert(distinct_points(prefix));
        lemma_apply_total_loss(target, approx, prefix);
        let ap = spec_apply(approx, prefix);
        lemma_apply_dims(approx, prefix);
        lemma_total_loss_set(target, ap, p, c);
        assert(forall|i: int| 0 <= i < prefix.len() ==> (#[trigger] prefix[i]).0 != p);
        lemma_apply_frame(approx, prefix, p);
    }
}

impl Image {
    /// Calculates how far apart `a` is from `b` in raw RGB space.
    pub fn pixel_loss(a: Color, b: Color) -> (loss: u32)
        ensures
            loss == spec_pixel_loss(a, b),
            loss <= MAX_PIXEL_LOSS,
    {
        proof {
            lemma_pixel_loss_bounds(a, b);
        }
        let dr = a.r as i32 - b.r as i32;
        let dg = a.g as i32 - b.g as i32;
        let db = a.b as i32 - b.b as i32;
        proof {
            assert(0 <= dr * dr <= 65025) by (nonlinear_arith)
                requires
                    -255 <= dr <= 255,
            ;
            assert(0 <= dg * dg <= 65025) by (nonlinear_arith)
                requires
                    -255 <= dg <= 255,
            ;
            assert(0 <= db * db <= 65025) by (nonlinear_arith)
                requires
                    -255 <= db <= 255,
            ;
        }
        (dr * dr + dg * dg + db * db) as u32
    }

    /// Evaluates how the aggregate loss against `target` would change if
    /// `changes` were applied to `approx`: negative means the changed canvas
    /// would be closer to the target. Only the changed pixels are visited;
    /// unaffected pixels contribute zero delta.
    pub fn loss_delta(target: &Image, approx: &Image, changes: &Vec<(Point, Color)>) -> (delta:
        i64)
        requires
            target@.wf(),
            approx@.wf(),
            target@.same_dims(approx@),
            changes_in_bounds(target@, changes@),
            changes@.len() * MAX_PIXEL_LOSS <= i64::MAX,
        ensures
            delta == spec_loss_delta(target@, approx@, changes@),
    {
        let mut delta: i64 = 0;
        for i in 0..changes.len()
            invariant
                target@.wf(),
                approx@.wf(),
                target@.same_dims(approx@),
                changes_in_bounds(target@, changes@),
                changes@.len() * MAX_PIXEL_LOSS <= i64::MAX,
                delta == spec_loss_delta(target@, approx@, changes@.take(i as int)),
        {
            let (pos, new_color) = changes[i];
            let target_color = target.color_at(pos);
            let approx_color = approx.color_at(pos);
            let loss_without_changes = Self::pixel_loss(target_color, approx_color);
            let loss_with_changes = Self::pixel_loss(target_color, new_color);
            proof {
                let s = changes@;
                lemma_loss_delta_bounds(target@, approx@, s.take(i as int));
                assert(s.take(i as int).len() * MAX_PIXEL_LOSS <= s.len() * MAX_PIXEL_LOSS)
                    by (nonlinear_arith)
                    requires
                        0 <= s.take(i as int).len() <= s.len(),
                ;
                assert(s.take(i + 1).drop_last() =~= s.take(i as int));
                assert(s.take(i + 1).last() == s[i as int]);
            }
            delta = delta + loss_with_changes as i64 - loss_without_changes as i64;
        }
        proof {
            assert(changes@.take(changes@.len() as int) =~= changes@);
        }
        delta
    }

    /// The aggregate loss of the whole canvas `approx` against `target`: the
    /// sum of `pixel_loss` over every pixel position.
    pub fn total_loss(target: &Image, approx: &Image) -> (loss: u64)
        requires
            target@.wf(),
            approx@.wf(),
            target@.same_dims(approx@),
            target@.pixels.len() * MAX_PIXEL_LOSS <= u64::MAX,
        ensures
            loss == spec_total_loss(target@, approx@),
    {
        let n = target.pixels.len();
        let mut loss: u64 = 0;
        for k in 0..n
            invariant
                target@.wf(),
                approx@.wf(),
                target@.same_dims(approx@),
                n == target@.pixels.len(),
                n * MAX_PIXEL_LOSS <= u64::MAX,
                loss == spec_total_loss_upto(target@, approx@, k as int),
                loss <= k * MAX_PIXEL_LOSS,
        {
            let pl = Self::pixel_loss(target.pixels[k], approx.pixels[k]);
            proof {
                assert(k * MAX_PIXEL_LOSS + MAX_PIXEL_LOSS == (k + 1) * MAX_PIXEL_LOSS)
                    by (nonlinear_arith);
                assert((k + 1) * MAX_PIXEL_LOSS <= n * MAX_PIXEL_LOSS) by (nonlinear_arith)
                    requires
                        0 <= k + 1 <= n,
                ;
            }
            loss = loss + pl as u64;
        }
        proof {
            assert(target@.width * target@.height == target@.pixels.len());
        }
        loss
    }
}

} // verus!
