//! Integer line rasterization: every grid point the ideal segment between
//! two endpoints passes through, in order from start to end (start included,
//! end excluded). The walk happens in octant zero — where the segment runs
//! rightwards with a shallow non-negative slope — and each emitted point is
//! rotated back into the original octant.

use crate::canvas::{ImageView, Point};
use vstd::arithmetic::div_mod::lemma_fundamental_div_mod_converse_div;
use vstd::prelude::*;

verus! {

pub open spec fn abs_val(a: int) -> int {
    if a < 0 {
        -a
    } else {
        a
    }
}

pub open spec fn max_val(a: int, b: int) -> int {
    if a < b {
        b
    } else {
        a
    }
}

/// `v` lies between `a` and `b`, whichever of the two is smaller.
pub open spec fn between(a: int, v: int, b: int) -> bool {
    (a <= v <= b) || (b <= v <= a)
}

/// The number of grid points the rasterized segment holds: one per step of
/// the driving axis, the end point being excluded.
pub open spec fn seg_len(beg: Point, end: Point) -> int {
    max_val(abs_val(end.x - beg.x), abs_val(end.y - beg.y))
}

/// Both coordinates of `p` lie inside the bounding box of `beg` and `end`.
pub open spec fn in_box(beg: Point, end: Point, p: Point) -> bool {
    &&& between(beg.x as int, p.x as int, end.x as int)
    &&& between(beg.y as int, p.y as int, end.y as int)
}

/// A rasterized point between two endpoints inside a canvas never leaves the
/// canvas: whatever lies in the endpoints' bounding box is in bounds.
pub proof fn lemma_box_in_canvas(v: ImageView, beg: Point, end: Point, p: Point)
    requires
        v.in_bounds(beg),
        v.in_bounds(end),
        in_box(beg, end, p),
    ensures
        v.in_bounds(p),
{
}

/// Which of the eight octants the displacement `(dx, dy)` falls in.
pub open spec fn octant_of(dx: int, dy: int) -> int {
    let (dx1, dy1, o1) = if dy < 0 {
        (-dx, -dy, 4int)
    } else {
        (dx, dy, 0int)
    };
    let (dx2, dy2, o2) = if dx1 < 0 {
        (dy1, -dx1, o1 + 2)
    } else {
        (dx1, dy1, o1)
    };
    if dx2 < dy2 {
        o2 + 1
    } else {
        o2
    }
}

/// Rotates a point into octant zero.
pub open spec fn spec_to_oct0(oct: int, x: int, y: int) -> (int, int) {
    if oct == 0 {
        (x, y)
    } else if oct == 1 {
        (y, x)
    } else if oct == 2 {
        (y, -x)
    } else if oct == 3 {
        (-x, y)
    } else if oct == 4 {
        (-x, -y)
    } else if oct == 5 {
        (-y, -x)
    } else if oct == 6 {
        (-y, x)
    } else {
        (x, -y)
    }
}

/// Rotates a point back out of octant zero.
pub open spec fn spec_from_oct0(oct: int, x: int, y: int) -> (int, int) {
    if oct == 0 {
        (x, y)
    } else if oct == 1 {
        (y, x)
    } else if oct == 2 {
        (-y, x)
    } else if oct == 3 {
        (-x, y)
    } else if oct == 4 {
        (-x, -y)
    } else if oct == 5 {
        (-y, -x)
    } else if oct == 6 {
        (y, -x)
    } else {
        (x, -y)
    }
}

/// The two octant rotations are inverses of each other.
pub proof fn lemma_oct0_roundtrip(oct: int, x: int, y: int)
    requires
        0 <= oct < 8,
    ensures
        spec_to_oct0(oct, spec_from_oct0(oct, x, y).0, spec_from_oct0(oct, x, y).1) == (x, y),
        spec_from_oct0(oct, spec_to_oct0(oct, x, y).0, spec_to_oct0(oct, x, y).1) == (x, y),
{
}

/// In the chosen octant, the rotated segment runs rightwards with a shallow
/// non-negative slope, and its horizontal extent is the larger absolute
/// displacement of the original segment.
pub proof fn lemma_octant0_form(bx: int, by: int, ex: int, ey: int)
    ensures
        ({
            let oct = octant_of(ex - bx, ey - by);
            let s = spec_to_oct0(oct, bx, by);
            let e = spec_to_oct0(oct, ex, ey);
            &&& 0 <= oct < 8
            &&& e.0 - s.0 == max_val(abs_val(ex - bx), abs_val(ey - by))
            &&& 0 <= e.1 - s.1 <= e.0 - s.0
        }),
{
}

/// A point whose octant-zero coordinates lie in the rotated segment's
/// bounding box maps back into the original segment's bounding box.
pub proof fn lemma_oct0_box(beg: Point, end: Point, oct: int, x: int, y: int)
    requires
        oct == octant_of(end.x - beg.x, end.y - beg.y),
        spec_to_oct0(oct, beg.x as int, beg.y as int).0 <= x <= spec_to_oct0(
            oct,
            end.x as int,
            end.y as int,
        ).0,
        spec_to_oct0(oct, beg.x as int, beg.y as int).1 <= y <= spec_to_oct0(
            oct,
            end.x as int,
            end.y as int,
        ).1,
    ensures
        between(beg.x as int, spec_from_oct0(oct, x, y).0, end.x as int),
        between(beg.y as int, spec_from_oct0(oct, x, y).1, end.y as int),
{
}

/// The `k`-th rasterized point of the segment, in octant-zero coordinates:
/// the driving coordinate advances by one each step, and the other follows
/// the ideal slope rounded down.
pub open spec fn spec_line_point(beg: Point, end: Point, k: int) -> (int, int) {
    let oct = octant_of(end.x - beg.x, end.y - beg.y);
    let s = spec_to_oct0(oct, beg.x as int, beg.y as int);
    let e = spec_to_oct0(oct, end.x as int, end.y as int);
    (s.0 + k, s.1 + (k * (e.1 - s.1)) / (e.0 - s.0))
}

/// The `k`-th rasterized point of the segment, in the original coordinates.
pub open spec fn spec_line_pixel(beg: Point, end: Point, k: int) -> (int, int) {
    let oct = octant_of(end.x - beg.x, end.y - beg.y);
    spec_from_oct0(oct, spec_line_point(beg, end, k).0, spec_line_point(beg, end, k).1)
}

proof fn lemma_mul_succ(a: int, b: int)
    ensures
        (a + 1) * b == a * b + b,
{
    assert((a + 1) * b == a * b + b) by (nonlinear_arith);
}

fn octant_of_exec(dx: i64, dy: i64) -> (o: u8)
    requires
        -(u32::MAX as i64) <= dx <= u32::MAX as i64,
        -(u32::MAX as i64) <= dy <= u32::MAX as i64,
    ensures
        o as int == octant_of(dx as int, dy as int),
        o < 8,
{
    let mut dx2 = dx;
    let mut dy2 = dy;
    let mut o: u8 = 0;
    if dy2 < 0 {
        dx2 = -dx2;
        dy2 = -dy2;
        o = 4;
    }
    if dx2 < 0 {
        let tmp = dx2;
        dx2 = dy2;
        dy2 = -tmp;
        o = o + 2;
    }
    if dx2 < dy2 {
        o = o + 1;
    }
    o
}

fn to_oct0_exec(oct: u8, x: i64, y: i64) -> (p: (i64, i64))
    requires
        oct < 8,
        -(u32::MAX as i64) <= x <= u32::MAX as i64,
        -(u32::MAX as i64) <= y <= u32::MAX as i64,
    ensures
        (p.0 as int, p.1 as int) == spec_to_oct0(oct as int, x as int, y as int),
{
    if oct == 0 {
        (x, y)
    } else if oct == 1 {
        (y, x)
    } else if oct == 2 {
        (y, -x)
    } else if oct == 3 {
        (-x, y)
    } else if oct == 4 {
        (-x, -y)
    } else if oct == 5 {
        (-y, -x)
    } else if oct == 6 {
        (-y, x)
    } else {
        (x, -y)
    }
}

fn from_oct0_exec(oct: u8, x: i64, y: i64) -> (p: (i64, i64))
    requires
        oct < 8,
        -(u32::MAX as i64) <= x <= u32::MAX as i64,
        -(u32::MAX as i64) <= y <= u32::MAX as i64,
    ensures
        (p.0 as int, p.1 as int) == spec_from_oct0(oct as int, x as int, y as int),
{
    if oct == 0 {
        (x, y)
    } else if oct == 1 {
        (y, x)
    } else if oct == 2 {
        (-y, x)
    } else if oct == 3 {
        (-x, y)
    } else if oct == 4 {
        (-x, -y)
    } else if oct == 5 {
        (-y, -x)
    } else if oct == 6 {
        (y, -x)
    } else {
        (x, -y)
    }
}

/// Rasterizes the segment from `beg` to `end`: every grid point the segment
/// passes through, in order from start to end, `beg` included and `end`
/// excluded. All points stay inside the bounding box of the two endpoints,
/// and no point is emitted twice.
pub fn rasterize_line(beg: Point, end: Point) -> (pts: Vec<Point>)
    ensures
        pts@.len() == seg_len(beg, end),
        forall|k: int|
            0 <= k < pts@.len() ==> (((#[trigger] pts@[k]).x as int, pts@[k].y as int)
                == spec_line_pixel(beg, end, k)),
        forall|k: int| 0 <= k < pts@.len() ==> in_box(beg, end, #[trigger] pts@[k]),
        pts@.len() > 0 ==> pts@[0] == beg,
        forall|i: int, j: int| 0 <= i < j < pts@.len() ==> pts@[i] != pts@[j],
{
    let bx = beg.x as i64;
    let by = beg.y as i64;
    let ex = end.x as i64;
    let ey = end.y as i64;
    let oct = octant_of_exec(ex - bx, ey - by);
    let (x0, y0) = to_oct0_exec(oct, bx, by);
    let (x1, y1) = to_oct0_exec(oct, ex, ey);
    proof {
        lemma_octant0_form(bx as int, by as int, ex as int, ey as int);
    }
    let dx = x1 - x0;
    let dy = y1 - y0;
    let mut pts: Vec<Point> = Vec::new();
    if dx == 0 {
        return pts;
    }
    let mut x = x0;
    let mut y = y0;
    let mut diff = dy - dx;
    proof {
        assert((x0 - x0 + 1) * dy == dy) by (nonlinear_arith);
        assert((y0 - y0) * dx == 0) by (nonlinear_arith);
    }
    while x < x1
        invariant
            oct < 8,
            oct as int == octant_of(end.x - beg.x, end.y - beg.y),
            (x0 as int, y0 as int) == spec_to_oct0(oct as int, beg.x as int, beg.y as int),
            (x1 as int, y1 as int) == spec_to_oct0(oct as int, end.x as int, end.y as int),
            dx == x1 - x0,
            dy == y1 - y0,
            1 <= dx,
            0 <= dy <= dx,
            dx == seg_len(beg, end),
            -(u32::MAX as i64) <= x0 <= u32::MAX as i64,
            -(u32::MAX as i64) <= y0 <= u32::MAX as i64,
            -(u32::MAX as i64) <= x1 <= u32::MAX as i64,
            -(u32::MAX as i64) <= y1 <= u32::MAX as i64,
            x0 <= x <= x1,
            y0 <= y,
            y - y0 <= dy,
            x == x0 ==> y == y0,
            diff == (x - x0 + 1) * dy - dx - (y - y0) * dx,
            -dx <= diff <= dy - 1,
            (y - y0) * dx <= (x - x0) * dy,
            (x - x0) * dy < (y - y0 + 1) * dx,
            pts@.len() == x - x0,
            forall|k: int| 0 <= k < pts@.len() ==> in_box(beg, end, #[trigger] pts@[k]),
            forall|k: int|
                0 <= k < pts@.len() ==> (((#[trigger] pts@[k]).x as int, pts@[k].y as int)
                    == spec_line_pixel(beg, end, k)),
            pts@.len() > 0 ==> pts@[0] == beg,
        decreases x1 - x,
    {
        let ghost k = x - x0;
        let ghost yk = y - y0;
        let (px, py) = from_oct0_exec(oct, x, y);
        proof {
            lemma_oct0_box(beg, end, oct as int, x as int, y as int);
            lemma_oct0_roundtrip(oct as int, x as int, y as int);
            if x == x0 {
                lemma_oct0_roundtrip(oct as int, beg.x as int, beg.y as int);
            }
            lemma_mul_succ(yk, dx as int);
            lemma_fundamental_div_mod_converse_div(
                k * dy,
                dx as int,
                yk,
                k * dy - yk * (dx as int),
            );
            assert(spec_line_point(beg, end, k) == (x as int, y as int));
        }
        let pxu = px as u32;
        let pyu = py as u32;
        pts.push(Point { x: pxu, y: pyu });
        if diff >= 0 {
            proof {
                assert((k + 1) * dy <= dx * dy) by (nonlinear_arith)
                    requires
                        0 <= dy,
                        k + 1 <= dx,
                ;
                assert(dx * dy == dy * dx) by (nonlinear_arith);
                if yk == dy {
                    assert(diff == (k + 1) * dy - dx - dy * dx);
                    assert(diff < 0);
                }
                assert(yk < dy);
                lemma_mul_succ(yk, dx as int);
                lemma_mul_succ(k, dy as int);
                lemma_mul_succ(yk + 1, dx as int);
                assert((yk + 1) * dx <= (k + 1) * dy);
                assert((k + 1) * dy < (yk + 2) * dx);
            }
            y = y + 1;
            diff = diff - dx;
        } else {
            proof {
                lemma_mul_succ(yk, dx as int);
                lemma_mul_succ(k, dy as int);
                assert(yk * dx <= (k + 1) * dy);
                assert((k + 1) * dy < (yk + 1) * dx);
            }
        }
        proof {
            assert((k + 2) * dy == (k + 1) * dy + dy) by (nonlinear_arith);
        }
        diff = diff + dy;
        x = x + 1;
    }
    proof {
        assert forall|i: int, j: int| 0 <= i < j < pts@.len() implies pts@[i] != pts@[j] by {
            let pi = spec_line_point(beg, end, i);
            let pj = spec_line_point(beg, end, j);
            lemma_oct0_roundtrip(oct as int, pi.0, pi.1);
            lemma_oct0_roundtrip(oct as int, pj.0, pj.1);
            assert(spec_to_oct0(oct as int, pts@[i].x as int, pts@[i].y as int).0 == x0 + i);
            assert(spec_to_oct0(oct as int, pts@[j].x as int, pts@[j].y as int).0 == x0 + j);
        }
    }
    pts
}

} // verus!
